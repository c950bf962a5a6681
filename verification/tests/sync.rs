use content_managment::datamodel::datamodel::{
    BySize, ImageMetadata, Resource, ResourceData, ResourceProvider, Resources, SiteDataConfig, Timestamp,
};
use content_managment::manager::clone::{clone_plan, CloneError};
use content_managment::manager::config::ResourceFilter;
use content_managment::manager::dropbox::{
    add_page_entries, diff_manifest_and_inventory, entries_to_fetch, fetched_resource, insert_fetched, join_results,
    next_cursor, remove_stale, DropboxError, DropboxManifest, DropboxManifestEntry, ListFolderEntry, ListFolderPage,
    DROPBOX_FOLDER,
};
use content_managment::strmap::StrMap;

fn s(t: &str) -> String {
    t.to_string()
}

fn image(id: &str, hash: &str) -> Resource {
    let m = ImageMetadata { name: s(id), date: Timestamp { secs: 0, nanos: 0 }, colour: s("000000"), variants: BySize::new() };
    Resource::new(&format!("resources/images/{}.jpg", id), ResourceData::Image(m), id, hash, ResourceProvider::Dropbox)
}

fn data(id: &str, hash: &str) -> Resource {
    Resource::new(&format!("resources/data/{}.json", id), ResourceData::Sitedata(SiteDataConfig { filename: format!("{}.json", id) }),
        id, hash, ResourceProvider::Dropbox)
}

fn inventory(v: Vec<Resource>) -> Resources {
    let mut m = StrMap::new();
    for r in v {
        m.insert(r.id.clone(), r);
    }
    Resources { resources: m }
}

fn listed(id: &str, tag: &str, name: &str, folder: &str, hash: Option<&str>) -> ListFolderEntry {
    ListFolderEntry {
        id: format!("id:{}", id),
        tag: s(tag),
        name: s(name),
        path_display: format!("{}/{}/{}", DROPBOX_FOLDER, folder, name),
        content_hash: hash.map(|h| s(h)),
    }
}

fn sorted(mut v: Vec<String>) -> Vec<String> {
    v.sort();
    v
}

#[test]
fn listing_pages_fill_the_manifest() {
    let mut manifest = DropboxManifest { files: StrMap::new() };
    let page = ListFolderPage {
        cursor: s("c1"),
        entries: vec![
            listed("A", "file", "a.jpg", "images", Some("ha")),
            listed("F", "folder", "images", "", None),
            listed("A", "file", "a-later.jpg", "images", Some("hb")),
            listed("B", "file", "b.json", "data", Some("hc")),
        ],
        has_more: true,
    };
    assert_eq!(next_cursor(&page), Some(s("c1")));
    add_page_entries(&mut manifest, page.entries);
    assert_eq!(manifest.files.len(), 2);
    let a = manifest.files.get("A").unwrap();
    assert_eq!(a.name, "a.jpg");
    assert_eq!(a.id, "A");
    assert_eq!(a.content_hash, "ha");
    assert!(manifest.files.get("F").is_none());
    let last = ListFolderPage { cursor: s("c2"), entries: vec![], has_more: false };
    assert_eq!(next_cursor(&last), None);
}

fn entry(id: &str, name: &str, folder: &str, hash: &str) -> DropboxManifestEntry {
    DropboxManifestEntry {
        name: s(name),
        id: s(id),
        path_display: format!("{}/{}/{}", DROPBOX_FOLDER, folder, name),
        content_hash: s(hash),
    }
}

fn manifest(v: Vec<DropboxManifestEntry>) -> DropboxManifest {
    let mut m = StrMap::new();
    for e in v {
        m.insert(e.id.clone(), e);
    }
    DropboxManifest { files: m }
}

#[test]
fn diff_finds_what_to_fetch_and_remove() {
    let res = inventory(vec![image("same", "h1"), image("changed", "h2"), image("gone", "h3"), data("d", "hd")]);
    let m = manifest(vec![
        entry("same", "same.JPG", "images", "h1"),
        entry("changed", "changed.jpeg", "images", "new"),
        entry("new", "new.jpg", "images", "h4"),
        entry("notimage", "notes.txt", "images", "h5"),
        entry("d", "d.json", "data", "hd"),
        entry("d2", "d2.json", "data", "h6"),
    ]);
    let images = diff_manifest_and_inventory(&res, &m, ResourceFilter::Images);
    assert_eq!(sorted(images.add), vec![s("changed"), s("new")]);
    assert_eq!(sorted(images.remove), vec![s("changed"), s("gone")]);
    assert_eq!(sorted(images.noop), vec![s("same")]);
    let datas = diff_manifest_and_inventory(&res, &m, ResourceFilter::Data);
    assert_eq!(sorted(datas.add), vec![s("d2")]);
    assert!(datas.remove.is_empty());
    assert_eq!(sorted(datas.noop), vec![s("d")]);
}

#[test]
fn fetched_files_become_resources() {
    let mut m = manifest(vec![entry("x", "x.jpg", "images", "hx"), entry("y", "y.json", "data", "hy")]);
    let taken = entries_to_fetch(&mut m, &vec![s("y")]);
    assert_eq!(taken.len(), 1);
    assert_eq!(taken[0].name, "y.json");
    assert_eq!(m.files.len(), 1);
    let r = fetched_resource(&taken[0], ResourceData::Sitedata(SiteDataConfig { filename: s("y.json") }), &ResourceFilter::Data);
    assert_eq!(r.path, "resources/data/y.json");
    assert_eq!(r.id, "y");
    assert_eq!(r.content_hash, "hy");
    assert!(matches!(r.resource_provider, ResourceProvider::Dropbox));
    let results = vec![Ok(r), Err(DropboxError::new(s("failed"))), Ok(image("z", "hz"))];
    let (ok, errors) = join_results(results);
    assert_eq!(ok.len(), 2);
    assert_eq!(errors.len(), 1);
    assert!(matches!(&errors[0], DropboxError::Str(m) if m == "failed"));
    let mut res = inventory(vec![image("z", "old")]);
    insert_fetched(&mut res, ok);
    assert_eq!(res.resources.len(), 2);
    assert_eq!(res.resources.get("z").unwrap().content_hash, "hz");
}

#[test]
fn clone_plan_compares_inventories() {
    let local = inventory(vec![image("a", "1"), image("b", "2"), image("c", "3")]);
    let remote = inventory(vec![image("b", "2"), image("c", "4"), image("d", "5")]);
    let plan = clone_plan(&local, &remote);
    assert_eq!(plan.remove, vec![s("a")]);
    assert_eq!(plan.add, vec![s("d")]);
    assert_eq!(plan.update, vec![s("c")]);
}

#[test]
fn clone_errors_describe_themselves() {
    assert_eq!(CloneError::from_message("Could not fetch manifest.yaml").describe(), "CloneError Could not fetch manifest.yaml");
    assert_eq!(CloneError::from_source(s("timeout")).describe(), "CloneError (Nested) : timeout");
    assert_eq!(CloneError { source: None, error: None }.describe(), "CloneError");
}

#[test]
fn file_ids_lose_their_first_three_bytes() {
    let mut manifest = DropboxManifest { files: StrMap::new() };
    let mut wide = listed("x", "file", "w.jpg", "images", Some("hw"));
    wide.id = s("\u{e9}:wide");
    let mut three = listed("x", "file", "t.jpg", "images", Some("ht"));
    three.id = s("\u{20ac}three");
    add_page_entries(&mut manifest, vec![wide, three]);
    assert_eq!(manifest.files.get("wide").unwrap().name, "w.jpg");
    assert_eq!(manifest.files.get("three").unwrap().name, "t.jpg");
}

#[test]
fn stale_resources_go_with_what_was_generated_from_them() {
    let a = image("a", "ha");
    let b = image("b", "hb");
    let mut deps = content_managment::datamodel::datamodel::Dependencies::new_default();
    deps.add_dependency(&a);
    let thumb = Resource::new("resources/thumbnails/a-small.jpg", ResourceData::Thumbnail(
        content_managment::datamodel::datamodel::ImageVariant {
            size: content_managment::datamodel::datamodel::ThumbnailSize::Small, width: 1, height: 1 }),
        "a-thumb", "ha", ResourceProvider::Generated(deps));
    let mut res = inventory(vec![a, b, thumb]);
    let removed = remove_stale(&mut res, &vec![s("a"), s("gone")]);
    let mut gone: Vec<String> = removed.iter().map(|r| r.id.clone()).collect();
    gone.sort();
    assert_eq!(gone, vec![s("a"), s("a-thumb")]);
    assert_eq!(res.resources.len(), 1);
    assert!(res.resources.contains_key("b"));
}

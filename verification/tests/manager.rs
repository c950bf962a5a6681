use content_managment::datamodel::datamodel::{
    BySize, Dependencies, DependencyFuncName, DependencyType, GeneratedDataDesc, ImageMetadata, ImageVariant, Resource,
    ResourceData, ResourceProvider, Resources, SiteDataConfig, ThumbnailSize, Timestamp,
};
use content_managment::manager::cleanup::{
    clean_broken_dependencies, clean_broken_resources, drop_ids, remove_all, remove_data, remove_targets,
    remove_thumbnails, selected_ids, stale_files,
};
use content_managment::manager::cli::{Action, CleanTargets, Cli, ManifestOptions, Origin};
use content_managment::manager::config::{
    relative_resource_path, resource_path, template_id, template_path, ResourceFilter,
};
use content_managment::manager::dependency::{
    category_dep_func, is_dep_outdated, lookup_dep_func, print_dep_func, register_deps, reverse_dependencies,
    templates_dep_func, DepFunc, DependencyManger, CATEGORY_DEP_FUNC_NAME, PRINT_DEP_FUNC_NAME,
    TEMPLATES_DEP_FUNC_NAME,
};
use content_managment::manager::generate::{
    find_categories_config_res, find_print_config_res, generated_data_resource, outdated_ids,
};
use content_managment::manager::select::{resources_matching_id, resources_matching_name};
use content_managment::strmap::StrMap;

fn s(t: &str) -> String {
    t.to_string()
}

fn meta(name: &str) -> ImageMetadata {
    ImageMetadata { name: s(name), date: Timestamp { secs: 0, nanos: 0 }, colour: s("000000"), variants: BySize::new() }
}

fn image(id: &str, path: &str, hash: &str) -> Resource {
    Resource::new(path, ResourceData::Image(meta(id)), id, hash, ResourceProvider::Dropbox)
}

fn sitedata(id: &str, filename: &str, hash: &str) -> Resource {
    let path = format!("resources/data/{}", filename);
    Resource::new(&path, ResourceData::Sitedata(SiteDataConfig { filename: s(filename) }), id, hash, ResourceProvider::Dropbox)
}

fn generated(id: &str, deps: Dependencies, hash: &str) -> Resource {
    let path = format!("resources/data/{}.json", id);
    Resource::new(&path, ResourceData::GeneratedData(GeneratedDataDesc { name: s(id) }), id, hash, ResourceProvider::Generated(deps))
}

fn thumbnail(id: &str, of: &Resource) -> Resource {
    let mut deps = Dependencies::new_default();
    deps.add_dependency(of);
    let path = format!("resources/thumbnails/{}.jpg", id);
    Resource::new(
        &path,
        ResourceData::Thumbnail(ImageVariant { size: ThumbnailSize::Small, width: 10, height: 10 }),
        id,
        &of.content_hash,
        ResourceProvider::Generated(deps),
    )
}

fn direct(on: &[&Resource]) -> Dependencies {
    let mut deps = Dependencies::new_default();
    for r in on {
        deps.add_dependency(r);
    }
    deps
}

fn inventory(v: Vec<Resource>) -> Resources {
    let mut m = StrMap::new();
    for r in v {
        m.insert(r.id.clone(), r);
    }
    Resources { resources: m }
}

fn ids(r: &Resources) -> Vec<String> {
    let mut v = Vec::new();
    for i in 0..r.resources.len() {
        v.push(r.resources.key_at(i).clone());
    }
    v.sort();
    v
}

#[test]
fn dependency_functions_are_registered_by_name() {
    let regs = register_deps();
    assert_eq!(regs.len(), 3);
    assert_eq!(regs[0].0 .0, CATEGORY_DEP_FUNC_NAME);
    assert_eq!(regs[1].0 .0, TEMPLATES_DEP_FUNC_NAME);
    assert_eq!(regs[2].0 .0, PRINT_DEP_FUNC_NAME);
    assert_eq!(TEMPLATES_DEP_FUNC_NAME, "TERA_TEMPLATES_DEP");
    assert!(matches!(lookup_dep_func(&DependencyFuncName(s("print_dep_func"))), Some(DepFunc::Print)));
    assert!(lookup_dep_func(&DependencyFuncName(s("nothing"))).is_none());
}

#[test]
fn dependency_functions_accept_their_inputs() {
    let img = image("img", "resources/images/a.jpg", "h");
    let cats = sitedata("cat", "categories.json", "c");
    let prints = sitedata("pr", "print.json", "p");
    let other = sitedata("o", "other.json", "o");
    let thumb = thumbnail("t", &img);
    assert!(category_dep_func(&img) && category_dep_func(&cats));
    assert!(!category_dep_func(&prints) && !category_dep_func(&thumb));
    assert!(print_dep_func(&img) && print_dep_func(&prints) && !print_dep_func(&other));
    assert!(templates_dep_func(&img) && templates_dep_func(&thumb) && !templates_dep_func(&cats));
    let gen = generated("categories", Dependencies::new_default(), "g");
    assert!(templates_dep_func(&gen));
    let gen2 = generated("prints", Dependencies::new_default(), "g");
    assert!(!templates_dep_func(&gen2));
}

#[test]
fn direct_dependencies_are_outdated_when_content_changes() {
    let a = image("a", "resources/images/a.jpg", "h1");
    let deps = direct(&[&a]);
    let res = inventory(vec![a.clone()]);
    assert!(!is_dep_outdated(&res, deps.get_dependencies()));
    assert!(!deps.is_outdated(&res));
    let changed = inventory(vec![image("a", "resources/images/a.jpg", "h2")]);
    assert!(deps.is_outdated(&changed));
    let gone = inventory(vec![]);
    assert!(deps.is_outdated(&gone));
}

#[test]
fn glob_dependencies_follow_the_function() {
    let img = image("img1", "resources/images/1.jpg", "hash1");
    let cat = sitedata("cat", "categories.json", "hashc");
    let res = inventory(vec![img.clone(), cat.clone(), sitedata("x", "x.json", "hx")]);
    let name = DependencyFuncName(s(CATEGORY_DEP_FUNC_NAME));
    let deps = <Dependencies as DependencyManger>::new_glob(&name, &res);
    assert!(deps.is_valid());
    assert_eq!(deps.get_dependencies().len(), 2);
    assert!(deps.depends_on(&img) && deps.depends_on(&cat));
    assert!(!deps.is_outdated(&res));
    assert_eq!(deps.hash_deps(), "75337195bcacf5f2e47a3de924e6203aea01f39dc8f238a6ba287e3db9e83b89");
    let more = inventory(vec![img.clone(), cat.clone(), image("img2", "resources/images/2.jpg", "hash2")]);
    assert!(deps.is_outdated(&more));
    let fewer = inventory(vec![cat.clone(), sitedata("x", "x.json", "hx")]);
    assert!(deps.is_outdated(&fewer));
    let rehashed = inventory(vec![image("img1", "resources/images/1.jpg", "hash9"), cat, sitedata("x", "x.json", "hx")]);
    assert!(deps.is_outdated(&rehashed));
    let unrelated = inventory(vec![img, sitedata("cat", "categories.json", "hashc")]);
    assert!(!deps.is_outdated(&unrelated));
    let bad = Dependencies::new(StrMap::new(), DependencyType::Glob(DependencyFuncName(s("unknown"))));
    assert!(!bad.is_valid());
}

#[test]
fn hash_of_a_single_dependency() {
    let a = image("a", "resources/images/a.jpg", "h1");
    let deps = direct(&[&a]);
    assert_eq!(deps.hash_deps(), "4c8d704405657da58f70e8c82f7609c54d999096f79ab11f63adcd5ca9e0ecbe");
}

#[test]
fn reverse_dependencies_lists_what_was_generated() {
    let a = image("a", "resources/images/a.jpg", "h1");
    let t = thumbnail("a-thumb", &a);
    let b = image("b", "resources/images/b.jpg", "h2");
    let res = inventory(vec![a.clone(), t, b.clone()]);
    assert_eq!(reverse_dependencies(&a, &res), vec![s("a-thumb")]);
    assert!(reverse_dependencies(&b, &res).is_empty());
}

#[test]
fn removing_a_resource_removes_what_depends_on_it() {
    let a = image("a", "resources/images/a.jpg", "h1");
    let t = thumbnail("a-thumb", &a);
    let page = generated("page", direct(&[&t]), "hp");
    let b = image("b", "resources/images/b.jpg", "h2");
    let mut res = inventory(vec![a, t, page, b]);
    let removed = res.remove_resource("a");
    assert_eq!(removed.len(), 3);
    assert_eq!(removed.last().unwrap().id, "a");
    assert_eq!(ids(&res), vec![s("b")]);
    let none = res.remove_resource("missing");
    assert!(none.is_empty());
    assert_eq!(ids(&res), vec![s("b")]);
}

#[test]
fn remove_outdated_leaves_nothing_outdated() {
    let a = image("a", "resources/images/a.jpg", "h1");
    let stale = generated("stale", direct(&[&image("a", "resources/images/a.jpg", "old")]), "hs");
    let on_stale = generated("on-stale", direct(&[&stale]), "ho");
    let fresh = generated("fresh", direct(&[&a]), "hf");
    let mut res = inventory(vec![a, stale, on_stale, fresh]);
    assert_eq!(outdated_ids(&res), vec![s("stale")]);
    res.remove_outdated();
    assert_eq!(ids(&res), vec![s("a"), s("fresh")]);
    assert!(outdated_ids(&res).is_empty());
    let before = ids(&res);
    res.remove_outdated();
    assert_eq!(ids(&res), before);
}

#[test]
fn cleaning_drops_broken_entries() {
    let a = image("a", "resources/images/a.jpg", "h1");
    let broken = generated("broken", Dependencies::new(StrMap::new(), DependencyType::Glob(DependencyFuncName(s("gone")))), "hb");
    let fine = generated("fine", direct(&[&a]), "hf");
    let mut res = inventory(vec![a, broken, fine]);
    clean_broken_dependencies(&mut res);
    assert_eq!(ids(&res), vec![s("a"), s("fine")]);
    clean_broken_resources(&mut res, &vec![s("fine"), s("nothing")]);
    assert_eq!(ids(&res), vec![s("a")]);
    drop_ids(&mut res, &vec![s("a")]);
    assert!(ids(&res).is_empty());
}

#[test]
fn cleaning_by_target() {
    let a = image("a", "resources/images/a.jpg", "h1");
    let t = thumbnail("a-thumb", &a);
    let d = sitedata("d", "print.json", "hd");
    let on_d = generated("on-d", direct(&[&d]), "ho");
    let res = inventory(vec![a.clone(), t.clone(), d.clone(), on_d.clone()]);
    let mut sel = selected_ids(&res, CleanTargets::Data);
    sel.sort();
    assert_eq!(sel, vec![s("d")]);

    let mut r1 = inventory(vec![a.clone(), t.clone(), d.clone(), on_d.clone()]);
    remove_thumbnails(&mut r1);
    assert_eq!(ids(&r1), vec![s("a"), s("d"), s("on-d")]);

    let mut r2 = inventory(vec![a.clone(), t.clone(), d.clone(), on_d.clone()]);
    remove_data(&mut r2);
    assert_eq!(ids(&r2), vec![s("a"), s("a-thumb")]);

    let mut r3 = inventory(vec![a.clone(), t.clone(), d.clone(), on_d.clone()]);
    remove_all(&mut r3);
    assert!(ids(&r3).is_empty());

    let mut r4 = inventory(vec![a, d]);
    remove_targets(&mut r4, CleanTargets::Thumbnails);
    assert_eq!(ids(&r4), vec![s("a"), s("d")]);
}

#[test]
fn stale_files_are_the_unused_ones() {
    let files = vec![s("/g/resources/data/a.json"), s("/g/resources/data/b.json"), s("/g/resources/data/c.json")];
    let valid = vec![s("/g/resources/data/b.json")];
    assert_eq!(stale_files(&files, &valid), vec![s("/g/resources/data/a.json"), s("/g/resources/data/c.json")]);
}

#[test]
fn resource_paths_by_kind_and_extension() {
    assert_eq!(resource_path("/g", "photo.jpg", &ResourceFilter::Data), "/g/resources/resource-images/photo.jpg");
    assert_eq!(resource_path("/g", "photo.jpeg", &ResourceFilter::Data), "/g/resources/resource-images/photo.jpeg");
    assert_eq!(resource_path("/g", "photo.JPG", &ResourceFilter::Data), "/g/resources/data/photo.JPG");
    assert_eq!(resource_path("/g/", "print.json", &ResourceFilter::Data), "/g/resources/data/print.json");
    assert_eq!(resource_path("/g", "README", &ResourceFilter::Data), "/g/resources/data/README");
    assert_eq!(resource_path("/g", ".jpg", &ResourceFilter::Data), "/g/resources/data/.jpg");
    assert_eq!(resource_path("/g", "a.b.jpg", &ResourceFilter::Data), "/g/resources/resource-images/a.b.jpg");
    assert_eq!(resource_path("/g", "a.jpg.", &ResourceFilter::Data), "/g/resources/data/a.jpg.");
    assert_eq!(resource_path("/g", "dir/a.jpg/", &ResourceFilter::Data), "/g/resources/resource-images/dir/a.jpg/");
    assert_eq!(resource_path("/g", "photo.jpg", &ResourceFilter::Images), "/g/resources/images/photo.jpg");
    assert_eq!(relative_resource_path("x.json", &ResourceFilter::Data), "resources/data/x.json");
    assert_eq!(relative_resource_path("x.jpg", &ResourceFilter::Images), "resources/images/x.jpg");
}

#[test]
fn templates_are_named_and_placed() {
    assert_eq!(template_id("index.html"), "tera-template:index.html");
    assert_eq!(template_path("/g", "index.html"), "/g/index.html");
    assert_eq!(template_path("/g", "/abs/x.html"), "/abs/x.html");
}

#[test]
fn config_files_and_generated_resources() {
    let img = image("img1", "resources/images/1.jpg", "hash1");
    let cat = sitedata("cat", "categories.json", "hashc");
    let res = inventory(vec![img, cat]);
    assert_eq!(find_categories_config_res("/g", &res), Some(s("/g/resources/data/categories.json")));
    assert_eq!(find_print_config_res("/g", &res), None);
    let name = DependencyFuncName(s(CATEGORY_DEP_FUNC_NAME));
    let r = generated_data_resource(&res, &name, "categories", "generated_data_resource:computed_categories",
        "resources/data/computed_categories.json");
    assert_eq!(r.id, "generated_data_resource:computed_categories");
    assert_eq!(r.path, "resources/data/computed_categories.json");
    assert_eq!(r.content_hash, "75337195bcacf5f2e47a3de924e6203aea01f39dc8f238a6ba287e3db9e83b89");
    match &r.resource_data {
        ResourceData::GeneratedData(g) => assert_eq!(g.name, "categories"),
        _ => panic!("not generated data"),
    }
    match &r.resource_provider {
        ResourceProvider::Generated(d) => assert!(!d.is_outdated(&res)),
        _ => panic!("not generated"),
    }
}

#[test]
fn command_line_precedence() {
    let mut cli = Cli {
        clean: None,
        clone_url: None,
        print_id: None,
        print_name: Some(s("x.*")),
        generate: true,
        create_dir: false,
        sync_dropbox: true,
        manifest: Some(ManifestOptions::Yaml),
        root: s("/g"),
    };
    assert!(matches!(cli.origin(), Origin::Dropbox));
    assert!(matches!(cli.action(), Action::PrintNames(p) if p == "x.*"));
    cli.clean = Some(CleanTargets::All);
    cli.clone_url = Some(s("https://example.org"));
    assert!(matches!(cli.origin(), Origin::Clone(u) if u == "https://example.org"));
    assert!(matches!(cli.action(), Action::Clean(CleanTargets::All)));
    cli.clean = None;
    cli.print_name = None;
    assert!(matches!(cli.action(), Action::PrintManifest(ManifestOptions::Yaml)));
    cli.manifest = None;
    assert!(matches!(cli.action(), Action::Generate));
    cli.generate = false;
    cli.sync_dropbox = false;
    cli.clone_url = None;
    assert!(matches!(cli.action(), Action::Nothing));
    assert!(matches!(cli.origin(), Origin::Stored));
}

#[test]
fn resources_are_picked_by_pattern() {
    let a = image("img-1", "resources/images/beach.jpg", "h1");
    let b = image("img-2", "resources/images/forest.png", "h2");
    let c = sitedata("cat", "categories.json", "hc");
    let res = inventory(vec![a, b, c]);
    let by_id: Vec<String> = resources_matching_id(&res, "^img-").unwrap().iter().map(|r| r.id.clone()).collect();
    assert_eq!(by_id, vec![s("img-1"), s("img-2")]);
    let by_name: Vec<String> = resources_matching_name(&res, r"\.(png|json)$").unwrap().iter().map(|r| r.id.clone()).collect();
    assert_eq!(by_name, vec![s("img-2"), s("cat")]);
    assert!(resources_matching_id(&res, "zzz").unwrap().is_empty());
    assert!(resources_matching_id(&res, "img(").is_none());
    assert!(resources_matching_name(&res, "[").is_none());
}

#[test]
fn file_names_are_the_last_path_component() {
    assert_eq!(image("a", "resources/images/beach.jpg", "h").get_filename(), "beach.jpg");
    assert_eq!(image("b", "resources/images/", "h").get_filename(), "images");
    assert_eq!(image("c", "foo.txt/.//", "h").get_filename(), "foo.txt");
    assert_eq!(image("d", "plain", "h").get_filename(), "plain");
    assert_eq!(image("e", "a//b", "h").get_filename(), "b");
}

#[test]
fn resource_files_and_records_are_placed_under_the_root() {
    let a = image("a", "resources/images/beach.jpg", "h1");
    assert_eq!(a.get_path("/g"), "/g/resources/images/beach.jpg");
    assert_eq!(a.get_metadata_path("/g"), "/g/resources/meta/beach.jpg.binres");
    let abs = image("b", "/elsewhere/b.jpg", "h2");
    assert_eq!(abs.get_path("/g"), "/elsewhere/b.jpg");
    assert_eq!(abs.get_metadata_path("/g/"), "/g/resources/meta/b.jpg.binres");
}

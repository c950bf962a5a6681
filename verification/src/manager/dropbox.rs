//! Synchronising with the Dropbox folder the gallery is published from: the
//! manifest of the folder, what differs from the inventory, and applying it.
use vstd::prelude::*;
use crate::strmap::{StrMap, keys_distinct, map_of, lemma_map_of_index};
use crate::text::{chars_of, string_of, starts_with, ends_with, is_prefix, is_suffix};
use crate::datamodel::datamodel::{Resource, Resources, ResourceData, ResourceProvider, ids_match};
use crate::manager::config::{ResourceFilter, relative_resource_path};
use crate::manager::image::{ImageMetadataError, SiteDataConfigError};
use crate::manager::dependency::{removed_through_chain, lemma_chain_compose, lemma_submap_get};
use crate::datamodel::datamodel::depends_on_id;

verus! {

/// The Dropbox folder the gallery is published from.
pub const DROPBOX_FOLDER: &'static str = "/Photography/Published_dev";
/// Where the site data files lie in the Dropbox folder.
pub const DATA_PATH: &'static str = "/Photography/Published_dev/data/";
/// Where the images lie in the Dropbox folder.
pub const IMAGE_PATH: &'static str = "/Photography/Published_dev/images/";

/// A file of the Dropbox folder.
#[derive(Debug)]
pub struct DropboxManifestEntry {
    pub name: String,
    pub id: String,
    pub path_display: String,
    pub content_hash: String,
}

/// The abstract value of a manifest entry.
pub struct EntryView {
    pub name: Seq<char>,
    pub id: Seq<char>,
    pub path_display: Seq<char>,
    pub content_hash: Seq<char>,
}

impl View for DropboxManifestEntry {
    type V = EntryView;

    open spec fn view(&self) -> EntryView {
        EntryView { name: self.name@, id: self.id@, path_display: self.path_display@, content_hash: self.content_hash@ }
    }
}

/// The files of the Dropbox folder, by id.
#[derive(Debug)]
pub struct DropboxManifest {
    pub files: StrMap<DropboxManifestEntry>,
}

/// Every file of the manifest is filed under its own id.
pub open spec fn manifest_ids_match(m: Map<Seq<char>, DropboxManifestEntry>) -> bool {
    forall|k: Seq<char>| #[trigger] m.dom().contains(k) ==> m[k].id@ == k
}

/// One entry of a folder listing page, as Dropbox sends it.
#[derive(Debug)]
pub struct ListFolderEntry {
    pub id: String,
    pub tag: String,
    pub name: String,
    pub path_display: String,
    pub content_hash: Option<String>,
}

/// A page of a folder listing.
#[derive(Debug)]
pub struct ListFolderPage {
    pub cursor: String,
    pub entries: Vec<ListFolderEntry>,
    pub has_more: bool,
}

/// The listing continues after `page` from the cursor it gives, if it has
/// more.
pub fn next_cursor(page: &ListFolderPage) -> (r: Option<String>)
    ensures
        page.has_more ==> (r matches Some(c) && c@ == page.cursor@),
        !page.has_more ==> r is None,
{
    if page.has_more { Some(page.cursor.clone()) } else { None }
}

/// A listing entry is a file.
pub open spec fn is_file(e: ListFolderEntry) -> bool {
    e.tag@ == "file"@
}

/// The number of bytes that character `c` takes in UTF-8.
pub open spec fn utf8_width(c: char) -> int {
    if (c as u32) < 0x80 {
        1
    } else if (c as u32) < 0x800 {
        2
    } else if (c as u32) < 0x10000 {
        3
    } else {
        4
    }
}

/// How many leading characters of `s` take up exactly its first `bytes`
/// bytes of UTF-8, if the characters end there.
pub open spec fn chars_spanning(s: Seq<char>, bytes: int) -> Option<nat>
    decreases s.len(),
{
    if bytes == 0 {
        Some(0)
    } else if bytes < 0 || s.len() == 0 {
        None
    } else {
        match chars_spanning(s.drop_first(), bytes - utf8_width(s[0])) {
            Some(n) => Some(n + 1),
            None => None,
        }
    }
}

/// The id of a listed file without its first three bytes (the `id:` prefix).
pub open spec fn bare_id(e: ListFolderEntry) -> Seq<char> {
    e.id@.skip(chars_spanning(e.id@, 3)->Some_0 as int)
}

/// A listing entry can be taken in: a file has an id whose first three bytes
/// end on a character (the `id:` prefix) and a content hash.
pub open spec fn entry_well_formed(e: ListFolderEntry) -> bool {
    is_file(e) ==> {
        &&& chars_spanning(e.id@, 3) is Some
        &&& e.content_hash is Some
    }
}

/// The manifest after taking in listed entries, last entry first: each file
/// is filed under its id without the prefix, so of two entries with one id
/// the earlier one is kept.
pub open spec fn taken_in(m: Map<Seq<char>, EntryView>, entries: Seq<ListFolderEntry>) -> Map<Seq<char>, EntryView>
    decreases entries.len(),
{
    if entries.len() == 0 {
        m
    } else {
        let e = entries.last();
        let m2 = if is_file(e) {
            m.insert(bare_id(e), EntryView {
                name: e.name@,
                id: bare_id(e),
                path_display: e.path_display@,
                content_hash: e.content_hash->Some_0@,
            })
        } else {
            m
        };
        taken_in(m2, entries.drop_last())
    }
}

/// The view of the manifest: id to entry view.
pub open spec fn manifest_view(m: DropboxManifest) -> Map<Seq<char>, EntryView> {
    crate::strmap::deep_map(m.files@)
}

/// The text after the first three bytes of `s`.
fn skip_three_bytes(s: &str) -> (r: String)
    requires
        chars_spanning(s@, 3) is Some,
    ensures
        r@ == s@.skip(chars_spanning(s@, 3)->Some_0 as int),
{
    let cs = chars_of(s);
    let ghost total = chars_spanning(cs@, 3)->Some_0 as int;
    let mut bytes: u32 = 0;
    let mut i: usize = 0;
    assert(cs@.skip(0) =~= cs@);
    while bytes < 3
        invariant
            bytes <= 3,
            i <= cs@.len(),
            total == chars_spanning(cs@, 3)->Some_0 as int,
            chars_spanning(cs@.skip(i as int), 3 - bytes) is Some,
            chars_spanning(cs@.skip(i as int), 3 - bytes)->Some_0 + i == total,
        decreases 3 - bytes,
    {
        let ghost t = cs@.skip(i as int);
        assert(t.len() > 0);
        assert(i < cs.len());
        assert(t[0] == cs@[i as int]);
        assert(t.drop_first() =~= cs@.skip(i + 1));
        let c = cs[i] as u32;
        let w: u32 = if c < 0x80 { 1 } else if c < 0x800 { 2 } else if c < 0x10000 { 3 } else { 4 };
        assert(w == utf8_width(t[0]));
        bytes = bytes + w;
        i = i + 1;
    }
    assert(chars_spanning(cs@.skip(i as int), 0) == Some(0nat));
    let mut out: Vec<char> = Vec::new();
    let start = i;
    while i < cs.len()
        invariant
            start <= i <= cs@.len(),
            start == total,
            out@ == cs@.subrange(start as int, i as int),
        decreases cs@.len() - i,
    {
        out.push(cs[i]);
        i = i + 1;
    }
    assert(out@ =~= cs@.skip(start as int));
    string_of(&out)
}

/// Takes in the entries of a listing page, last entry first: every file is
/// filed under its id without the `id:` prefix.
pub fn add_page_entries(manifest: &mut DropboxManifest, entries: Vec<ListFolderEntry>)
    requires
        forall|i: int| 0 <= i < entries@.len() ==> entry_well_formed(#[trigger] entries@[i]),
        manifest_ids_match(old(manifest).files@),
    ensures
        manifest_view(*final(manifest)) == taken_in(manifest_view(*old(manifest)), entries@),
        manifest_ids_match(final(manifest).files@),
{
    let mut entries = entries;
    let ghost all = entries@;
    let ghost m0 = manifest_view(*manifest);
    while entries.len() > 0
        invariant
            forall|i: int| 0 <= i < entries@.len() ==> entry_well_formed(#[trigger] entries@[i]),
            manifest_ids_match(manifest.files@),
            taken_in(m0, all) == taken_in(manifest_view(*manifest), entries@),
        decreases entries@.len(),
    {
        let ghost before = manifest_view(*manifest);
        let ghost rest = entries@;
        let e = entries.pop().unwrap();
        proof {
            assert(rest.last() == e);
            assert(rest.drop_last() == entries@);
            assert(entry_well_formed(rest[rest.len() - 1]));
        }
        if crate::text::str_eq(e.tag.as_str(), "file") {
            let id = skip_three_bytes(e.id.as_str());
            let hash = match e.content_hash {
                Some(h) => h,
                None => String::new(),
            };
            let entry = DropboxManifestEntry { name: e.name, id: id.clone(), path_display: e.path_display, content_hash: hash };
            let _ = manifest.files.insert(id, entry);
            proof {
                assert(manifest_view(*manifest) =~= before.insert(bare_id(e), EntryView {
                    name: e.name@,
                    id: bare_id(e),
                    path_display: e.path_display@,
                    content_hash: e.content_hash->Some_0@,
                }));
            }
        }
    }
}

/// The lower-case form of ASCII letters; other characters unchanged.
pub open spec fn ascii_lower(c: char) -> char {
    if 'A' <= c && c <= 'Z' { ((c as u32) + 32) as char } else { c }
}

/// Text with its ASCII letters in lower case.
pub open spec fn ascii_lowercase(s: Seq<char>) -> Seq<char> {
    s.map_values(|c: char| ascii_lower(c))
}

fn to_ascii_lowercase(s: &str) -> (r: String)
    ensures
        r@ == ascii_lowercase(s@),
{
    let cs = chars_of(s);
    let mut out: Vec<char> = Vec::new();
    let mut i: usize = 0;
    while i < cs.len()
        invariant
            i <= cs@.len(),
            out@ == cs@.take(i as int).map_values(|c: char| ascii_lower(c)),
        decreases cs@.len() - i,
    {
        let c = cs[i];
        let l = if 'A' <= c && c <= 'Z' {
            let b: u8 = c as u8;
            (b + 32) as char
        } else {
            c
        };
        proof {
            assert(cs@.take(i + 1).map_values(|c: char| ascii_lower(c))
                =~= cs@.take(i as int).map_values(|c: char| ascii_lower(c)).push(ascii_lower(c)));
        }
        out.push(l);
        i = i + 1;
    }
    assert(cs@.take(cs@.len() as int) =~= cs@);
    string_of(&out)
}

/// A Dropbox file belongs to the kind of resources: data files lie under the
/// data folder; images under the image folder and end in `.jpeg` or `.jpg`,
/// in any case.
pub open spec fn entry_selected(f: ResourceFilter, e: EntryView) -> bool {
    match f {
        ResourceFilter::Data => is_prefix(DATA_PATH@, e.path_display),
        ResourceFilter::Images => is_prefix(IMAGE_PATH@, e.path_display)
            && (is_suffix(".jpeg"@, ascii_lowercase(e.name)) || is_suffix(".jpg"@, ascii_lowercase(e.name))),
    }
}

fn entry_selected_exec(f: ResourceFilter, e: &DropboxManifestEntry) -> (b: bool)
    ensures
        b == entry_selected(f, e@),
{
    match f {
        ResourceFilter::Data => starts_with(e.path_display.as_str(), DATA_PATH),
        ResourceFilter::Images => {
            if starts_with(e.path_display.as_str(), IMAGE_PATH) {
                let low = to_ascii_lowercase(e.name.as_str());
                ends_with(low.as_str(), ".jpeg") || ends_with(low.as_str(), ".jpg")
            } else {
                false
            }
        },
    }
}

/// A resource of the inventory belongs to the kind: site data or image.
pub open spec fn resource_selected(f: ResourceFilter, r: Resource) -> bool {
    match f {
        ResourceFilter::Data => r.resource_data is Sitedata,
        ResourceFilter::Images => r.resource_data is Image,
    }
}

/// What to do to bring the inventory in line with the manifest.
#[derive(Debug)]
pub struct Operation {
    /// Ids to fetch.
    pub add: Vec<String>,
    /// Ids to remove from the inventory.
    pub remove: Vec<String>,
    /// Ids that are up to date.
    pub noop: Vec<String>,
}

/// Whether `id` is one of `ids`.
pub open spec fn listed(ids: Seq<String>, id: Seq<char>) -> bool {
    exists|i: int| 0 <= i < ids.len() && ids[i]@ == id
}

/// No id occurs twice.
pub open spec fn no_dups(ids: Seq<String>) -> bool {
    forall|i: int, j: int| 0 <= i < ids.len() && 0 <= j < ids.len() && i != j ==> ids[i]@ != ids[j]@
}

/// The manifest has a file of the kind under `k`.
pub open spec fn in_manifest(f: ResourceFilter, m: Map<Seq<char>, DropboxManifestEntry>, k: Seq<char>) -> bool {
    m.dom().contains(k) && entry_selected(f, m[k]@)
}

/// Which manifest entries a sync of each kind takes up: for site data,
/// every file under the data folder, whatever its name (data files, print
/// descriptions and resource images alike); for images, the files under the
/// image folder whose names end in `.jpg` or `.jpeg`, in any ASCII case.
pub proof fn law_sync_takes_the_files_of_its_folder(m: Map<Seq<char>, DropboxManifestEntry>, k: Seq<char>)
    ensures
        in_manifest(ResourceFilter::Data, m, k) <==> m.dom().contains(k)
            && DATA_PATH@.len() <= m[k].path_display@.len()
            && m[k].path_display@.take(DATA_PATH@.len() as int) == DATA_PATH@,
        in_manifest(ResourceFilter::Images, m, k) <==> m.dom().contains(k)
            && IMAGE_PATH@.len() <= m[k].path_display@.len()
            && m[k].path_display@.take(IMAGE_PATH@.len() as int) == IMAGE_PATH@
            && ({
                let low = m[k].name@.map_values(|c: char| if 'A' <= c <= 'Z' { ((c as u32) + 32) as char } else { c });
                (4 <= low.len() && low.skip(low.len() - 4) == ".jpg"@)
                    || (5 <= low.len() && low.skip(low.len() - 5) == ".jpeg"@)
            }),
{
    reveal_strlit(".jpg");
    reveal_strlit(".jpeg");
    if m.dom().contains(k) {
        let low = m[k].name@.map_values(|c: char| if 'A' <= c <= 'Z' { ((c as u32) + 32) as char } else { c });
        assert(ascii_lowercase(m[k].name@) =~= low) by {
            assert forall|i: int| 0 <= i < low.len() implies ascii_lowercase(m[k].name@)[i] == low[i] by {
                let c = m[k].name@[i];
                assert(ascii_lower(c) == (if 'A' <= c <= 'Z' { ((c as u32) + 32) as char } else { c }));
            }
        }
    }
}

/// The inventory has a resource of the kind under `k`.
pub open spec fn in_inventory(f: ResourceFilter, res: Map<Seq<char>, Resource>, k: Seq<char>) -> bool {
    res.dom().contains(k) && resource_selected(f, res[k])
}

proof fn lemma_push_listed(before: Seq<String>, after: Seq<String>, s: String, k: Seq<char>)
    requires
        after == before.push(s),
    ensures
        listed(after, k) <==> listed(before, k) || s@ == k,
{
    if listed(after, k) {
        let i = choose|i: int| 0 <= i < after.len() && after[i]@ == k;
        if i < before.len() { assert(before[i] == after[i]); }
    }
    if listed(before, k) {
        let i = choose|i: int| 0 <= i < before.len() && before[i]@ == k;
        assert(after[i] == before[i]);
    }
    if s@ == k { assert(after[before.len() as int] == s); }
}

proof fn lemma_push_no_dups(before: Seq<String>, s: String)
    requires
        no_dups(before),
        !listed(before, s@),
    ensures
        no_dups(before.push(s)),
{
    let after = before.push(s);
    assert forall|i: int, j: int| 0 <= i < after.len() && 0 <= j < after.len() && i != j implies after[i]@ != after[j]@ by {
        if i == before.len() {
            assert(before[j] == after[j]);
        } else if j == before.len() {
            assert(before[i] == after[i]);
        } else {
            assert(before[i] == after[i] && before[j] == after[j]);
        }
    }
}

/// What differs between the inventory and the manifest for one kind of
/// resources. A file of the manifest that the inventory lacks, or has with
/// another content hash, is fetched; a resource that the manifest lacks, or
/// has with another content hash, is removed; the others are up to date. No
/// list holds an id twice.
pub fn diff_manifest_and_inventory(resources: &Resources, manifest: &DropboxManifest, f: ResourceFilter) -> (op: Operation)
    requires
        ids_match(resources.resources@),
        manifest_ids_match(manifest.files@),
    ensures
        forall|k: Seq<char>| #[trigger] listed(op.add@, k) <==> in_manifest(f, manifest.files@, k)
            && (!in_inventory(f, resources.resources@, k)
                || manifest.files@[k].content_hash@ != resources.resources@[k].content_hash@),
        forall|k: Seq<char>| #[trigger] listed(op.remove@, k) <==> in_inventory(f, resources.resources@, k)
            && (!in_manifest(f, manifest.files@, k)
                || manifest.files@[k].content_hash@ != resources.resources@[k].content_hash@),
        forall|k: Seq<char>| #[trigger] listed(op.noop@, k) <==> in_inventory(f, resources.resources@, k)
            && in_manifest(f, manifest.files@, k)
            && manifest.files@[k].content_hash@ == resources.resources@[k].content_hash@,
        no_dups(op.add@),
        no_dups(op.remove@),
        no_dups(op.noop@),
{
    let ghost mf = manifest.files@;
    let ghost rs = resources.resources@;
    let ghost mitems = manifest.files.items();
    let ghost ritems = resources.resources.items();
    let nm = manifest.files.len();
    let nr = resources.resources.len();
    let mut add: Vec<String> = Vec::new();
    let mut remove: Vec<String> = Vec::new();
    let mut noop: Vec<String> = Vec::new();
    let mut i: usize = 0;
    while i < nm
        invariant
            i <= nm == mitems.len(),
            mitems == manifest.files.items(),
            keys_distinct(mitems),
            mf == map_of(mitems),
            rs == resources.resources@,
            manifest_ids_match(mf),
            ids_match(rs),
            forall|k: Seq<char>| #[trigger] listed(add@, k) <==> exists|j: int| 0 <= j < i && mitems[j].0 == k
                && in_manifest(f, mf, k) && (!in_inventory(f, rs, k) || mf[k].content_hash@ != rs[k].content_hash@),
            forall|k: Seq<char>| #[trigger] listed(remove@, k) <==> exists|j: int| 0 <= j < i && mitems[j].0 == k
                && in_manifest(f, mf, k) && in_inventory(f, rs, k) && mf[k].content_hash@ != rs[k].content_hash@,
            forall|k: Seq<char>| #[trigger] listed(noop@, k) <==> exists|j: int| 0 <= j < i && mitems[j].0 == k
                && in_manifest(f, mf, k) && in_inventory(f, rs, k) && mf[k].content_hash@ == rs[k].content_hash@,
            no_dups(add@),
            no_dups(remove@),
            no_dups(noop@),
        decreases nm - i,
    {
        let k = manifest.files.key_at(i);
        let e = manifest.files.value_at(i);
        proof {
            lemma_map_of_index(mitems, i as int);
            assert(!(exists|j: int| 0 <= j < i && mitems[j].0 == k@)) by {
                if exists|j: int| 0 <= j < i && mitems[j].0 == k@ {
                    let j = choose|j: int| 0 <= j < i && mitems[j].0 == k@;
                    assert(mitems[j].0 == mitems[i as int].0);
                }
            }
        }
        let ghost (a0, r0, n0) = (add@, remove@, noop@);
        if entry_selected_exec(f, e) {
            let (present, same) = match resources.resources.get(k.as_str()) {
                Some(x) => {
                    let sel = match f {
                        ResourceFilter::Data => match &x.resource_data { ResourceData::Sitedata(_) => true, _ => false },
                        ResourceFilter::Images => match &x.resource_data { ResourceData::Image(_) => true, _ => false },
                    };
                    (sel, sel && crate::text::str_eq(x.content_hash.as_str(), e.content_hash.as_str()))
                },
                None => (false, false),
            };
            let kc = k.clone();
            if !present {
                proof { lemma_push_no_dups(add@, kc); }
                add.push(kc);
            } else if !same {
                let kc2 = k.clone();
                proof {
                    lemma_push_no_dups(add@, kc);
                    lemma_push_no_dups(remove@, kc2);
                }
                add.push(kc);
                remove.push(kc2);
            } else {
                proof { lemma_push_no_dups(noop@, kc); }
                noop.push(kc);
            }
        }
        proof {
            assert forall|k2: Seq<char>| #[trigger] listed(add@, k2) <==> exists|j: int| 0 <= j < i + 1 && mitems[j].0 == k2
                && in_manifest(f, mf, k2) && (!in_inventory(f, rs, k2) || mf[k2].content_hash@ != rs[k2].content_hash@) by {
                if add@.len() > a0.len() { lemma_push_listed(a0, add@, add@.last(), k2); }
                if exists|j: int| 0 <= j < i + 1 && mitems[j].0 == k2 {
                    let j = choose|j: int| 0 <= j < i + 1 && mitems[j].0 == k2;
                    if j < i { assert(exists|j: int| 0 <= j < i && mitems[j].0 == k2); }
                }
            }
            assert forall|k2: Seq<char>| #[trigger] listed(remove@, k2) <==> exists|j: int| 0 <= j < i + 1 && mitems[j].0 == k2
                && in_manifest(f, mf, k2) && in_inventory(f, rs, k2) && mf[k2].content_hash@ != rs[k2].content_hash@ by {
                if remove@.len() > r0.len() { lemma_push_listed(r0, remove@, remove@.last(), k2); }
                if exists|j: int| 0 <= j < i + 1 && mitems[j].0 == k2 {
                    let j = choose|j: int| 0 <= j < i + 1 && mitems[j].0 == k2;
                    if j < i { assert(exists|j: int| 0 <= j < i && mitems[j].0 == k2); }
                }
            }
            assert forall|k2: Seq<char>| #[trigger] listed(noop@, k2) <==> exists|j: int| 0 <= j < i + 1 && mitems[j].0 == k2
                && in_manifest(f, mf, k2) && in_inventory(f, rs, k2) && mf[k2].content_hash@ == rs[k2].content_hash@ by {
                if noop@.len() > n0.len() { lemma_push_listed(n0, noop@, noop@.last(), k2); }
                if exists|j: int| 0 <= j < i + 1 && mitems[j].0 == k2 {
                    let j = choose|j: int| 0 <= j < i + 1 && mitems[j].0 == k2;
                    if j < i { assert(exists|j: int| 0 <= j < i && mitems[j].0 == k2); }
                }
            }
        }
        i = i + 1;
    }
    let mut i: usize = 0;
    while i < nr
        invariant
            i <= nr == ritems.len(),
            ritems == resources.resources.items(),
            keys_distinct(ritems),
            rs == map_of(ritems),
            mf == manifest.files@,
            manifest_ids_match(mf),
            ids_match(rs),
            forall|k: Seq<char>| #[trigger] listed(add@, k) <==> in_manifest(f, mf, k)
                && (!in_inventory(f, rs, k) || mf[k].content_hash@ != rs[k].content_hash@),
            forall|k: Seq<char>| #[trigger] listed(remove@, k) <==> (in_manifest(f, mf, k) && in_inventory(f, rs, k)
                && mf[k].content_hash@ != rs[k].content_hash@) || (exists|j: int| 0 <= j < i && ritems[j].0 == k
                && in_inventory(f, rs, k) && !in_manifest(f, mf, k)),
            forall|k: Seq<char>| #[trigger] listed(noop@, k) <==> in_manifest(f, mf, k) && in_inventory(f, rs, k)
                && mf[k].content_hash@ == rs[k].content_hash@,
            no_dups(add@),
            no_dups(remove@),
            no_dups(noop@),
        decreases nr - i,
    {
        let k = resources.resources.key_at(i);
        let x = resources.resources.value_at(i);
        proof {
            lemma_map_of_index(ritems, i as int);
            assert(!(exists|j: int| 0 <= j < i && ritems[j].0 == k@)) by {
                if exists|j: int| 0 <= j < i && ritems[j].0 == k@ {
                    let j = choose|j: int| 0 <= j < i && ritems[j].0 == k@;
                    assert(ritems[j].0 == ritems[i as int].0);
                }
            }
        }
        let ghost r0 = remove@;
        let sel = match f {
            ResourceFilter::Data => match &x.resource_data { ResourceData::Sitedata(_) => true, _ => false },
            ResourceFilter::Images => match &x.resource_data { ResourceData::Image(_) => true, _ => false },
        };
        if sel {
            let in_m = match manifest.files.get(k.as_str()) {
                Some(e) => entry_selected_exec(f, e),
                None => false,
            };
            if !in_m {
                let kc = k.clone();
                proof { lemma_push_no_dups(remove@, kc); }
                remove.push(kc);
            }
        }
        proof {
            assert forall|k2: Seq<char>| #[trigger] listed(remove@, k2) <==> (in_manifest(f, mf, k2) && in_inventory(f, rs, k2)
                && mf[k2].content_hash@ != rs[k2].content_hash@) || (exists|j: int| 0 <= j < i + 1 && ritems[j].0 == k2
                && in_inventory(f, rs, k2) && !in_manifest(f, mf, k2)) by {
                if remove@.len() > r0.len() { lemma_push_listed(r0, remove@, remove@.last(), k2); }
                if exists|j: int| 0 <= j < i + 1 && ritems[j].0 == k2 {
                    let j = choose|j: int| 0 <= j < i + 1 && ritems[j].0 == k2;
                    if j < i { assert(exists|j: int| 0 <= j < i && ritems[j].0 == k2); }
                }
            }
        }
        i = i + 1;
    }
    proof {
        assert forall|k: Seq<char>| #[trigger] listed(remove@, k) <==> in_inventory(f, rs, k)
            && (!in_manifest(f, mf, k) || mf[k].content_hash@ != rs[k].content_hash@) by {
            if in_inventory(f, rs, k) && !in_manifest(f, mf, k) {
                let j = choose|j: int| 0 <= j < ritems.len() && ritems[j].0 == k;
            }
        }
    }
    Operation { add, remove, noop }
}

/// Takes the files to fetch out of the manifest, in the order of `ids`.
pub fn entries_to_fetch(manifest: &mut DropboxManifest, ids: &Vec<String>) -> (r: Vec<DropboxManifestEntry>)
    requires
        no_dups(ids@),
        forall|i: int| 0 <= i < ids@.len() ==> old(manifest).files@.dom().contains(#[trigger] ids@[i]@),
    ensures
        r@.len() == ids@.len(),
        forall|i: int| 0 <= i < ids@.len() ==> #[trigger] r@[i] == old(manifest).files@[ids@[i]@],
        final(manifest).files@ == old(manifest).files@.remove_keys(Set::new(|k: Seq<char>| listed(ids@, k))),
{
    let ghost m0 = manifest.files@;
    let mut r: Vec<DropboxManifestEntry> = Vec::new();
    let mut j: usize = 0;
    while j < ids.len()
        invariant
            j <= ids@.len(),
            no_dups(ids@),
            forall|i: int| 0 <= i < ids@.len() ==> m0.dom().contains(#[trigger] ids@[i]@),
            r@.len() == j,
            forall|i: int| 0 <= i < j ==> #[trigger] r@[i] == m0[ids@[i]@],
            manifest.files@ == m0.remove_keys(Set::new(|k: Seq<char>| listed(ids@.take(j as int), k))),
        decreases ids@.len() - j,
    {
        proof {
            assert(m0.dom().contains(ids@[j as int]@));
            assert(!listed(ids@.take(j as int), ids@[j as int]@)) by {
                if listed(ids@.take(j as int), ids@[j as int]@) {
                    let i = choose|i: int| 0 <= i < j && ids@.take(j as int)[i]@ == ids@[j as int]@;
                    assert(ids@[i]@ == ids@[j as int]@);
                }
            }
        }
        match manifest.files.remove(ids[j].as_str()) {
            Some(e) => {
                r.push(e);
            },
            None => {
                proof { assert(false); }
                return r;
            },
        }
        proof {
            let t = ids@.take(j + 1);
            assert forall|k: Seq<char>| listed(t, k) <==> listed(ids@.take(j as int), k) || k == ids@[j as int]@ by {
                if listed(t, k) {
                    let i = choose|i: int| 0 <= i < t.len() && t[i]@ == k;
                    if i < j { assert(ids@.take(j as int)[i] == t[i]); }
                }
                if listed(ids@.take(j as int), k) {
                    let i = choose|i: int| 0 <= i < j && ids@.take(j as int)[i]@ == k;
                    assert(t[i] == ids@.take(j as int)[i]);
                }
                if k == ids@[j as int]@ { assert(t[j as int] == ids@[j as int]); }
            }
            assert(manifest.files@ =~= m0.remove_keys(Set::new(|k: Seq<char>| listed(t, k))));
        }
        j = j + 1;
    }
    assert(ids@.take(ids@.len() as int) =~= ids@);
    r
}

/// The resource made of a fetched Dropbox file: stored under the folder of
/// its kind, with the file's id and content hash, provided by Dropbox.
pub fn fetched_resource(entry: &DropboxManifestEntry, data: ResourceData, filter: &ResourceFilter) -> (r: Resource)
    ensures
        r.path@ == (match *filter {
            ResourceFilter::Data => "resources/data/"@,
            ResourceFilter::Images => "resources/images/"@,
        }) + entry.name@,
        r.resource_data == data,
        r.id@ == entry.id@,
        r.content_hash@ == entry.content_hash@,
        r.resource_provider is Dropbox,
{
    let path = relative_resource_path(entry.name.as_str(), filter);
    Resource::new(path.as_str(), data, entry.id.as_str(), entry.content_hash.as_str(), ResourceProvider::Dropbox)
}

/// Why fetching from Dropbox failed.
#[derive(Debug)]
pub enum DropboxError {
    /// A message of the synchronisation itself.
    Str(String),
    /// An error of the HTTP client, by its message.
    Reqwest(String),
    /// A fetching task that could not be joined, by its message.
    Tokio(String),
    /// The metadata of a fetched image could not be read.
    MetadataError(ImageMetadataError),
    /// A fetched data file could not be registered.
    ResourceError(SiteDataConfigError),
}

impl DropboxError {
    /// An error with the given message.
    pub fn new(s: String) -> (e: DropboxError)
        ensures
            e == DropboxError::Str(s),
    {
        DropboxError::Str(s)
    }
}

/// The values of the results that succeeded, in order.
pub open spec fn successes(rs: Seq<Result<Resource, DropboxError>>) -> Seq<Resource>
    decreases rs.len(),
{
    if rs.len() == 0 {
        Seq::empty()
    } else {
        match rs.last() {
            Ok(r) => successes(rs.drop_last()).push(r),
            Err(_) => successes(rs.drop_last()),
        }
    }
}

/// The errors of the results that failed, in order.
pub open spec fn failures(rs: Seq<Result<Resource, DropboxError>>) -> Seq<DropboxError>
    decreases rs.len(),
{
    if rs.len() == 0 {
        Seq::empty()
    } else {
        match rs.last() {
            Ok(_) => failures(rs.drop_last()),
            Err(e) => failures(rs.drop_last()).push(e),
        }
    }
}

/// Sorts the results of fetching tasks into fetched resources and errors,
/// each in the order of the tasks.
pub fn join_results(results: Vec<Result<Resource, DropboxError>>) -> (r: (Vec<Resource>, Vec<DropboxError>))
    ensures
        r.0@ == successes(results@),
        r.1@ == failures(results@),
{
    let ghost all = results@;
    let mut results = results;
    let mut resources: Vec<Resource> = Vec::new();
    let mut errors: Vec<DropboxError> = Vec::new();
    let ghost mut k: int = 0;
    assert(all.take(0) =~= Seq::<Result<Resource, DropboxError>>::empty());
    assert(all.skip(0) =~= all);
    while results.len() > 0
        invariant
            0 <= k <= all.len(),
            results@ == all.skip(k),
            resources@ == successes(all.take(k)),
            errors@ == failures(all.take(k)),
        decreases results@.len(),
    {
        let x = results.remove(0);
        assert(results@ =~= all.skip(k + 1));
        proof {
            assert(x == all[k]);
            assert(all.take(k + 1).drop_last() =~= all.take(k));
            assert(all.take(k + 1).last() == x);
        }
        match x {
            Ok(r) => resources.push(r),
            Err(e) => errors.push(e),
        }
        proof { k = k + 1; }
    }
    assert(all.take(all.len() as int) =~= all);
    (resources, errors)
}

/// Files the fetched resources under their ids.
pub fn insert_fetched(resources: &mut Resources, fetched: Vec<Resource>)
    ensures
        final(resources).resources@ == fetched@.fold_left(old(resources).resources@,
            |m: Map<Seq<char>, Resource>, r: Resource| m.insert(r.id@, r)),
{
    let ghost all = fetched@;
    let ghost m0 = resources.resources@;
    let mut fetched = fetched;
    let ghost mut k: int = 0;
    assert(all.take(0) =~= Seq::<Resource>::empty());
    assert(all.skip(0) =~= all);
    while fetched.len() > 0
        invariant
            0 <= k <= all.len(),
            fetched@ == all.skip(k),
            resources.resources@ == all.take(k).fold_left(m0, |m: Map<Seq<char>, Resource>, r: Resource| m.insert(r.id@, r)),
        decreases fetched@.len(),
    {
        let r = fetched.remove(0);
        assert(fetched@ =~= all.skip(k + 1));
        proof {
            assert(r == all[k]);
            assert(all.take(k + 1).drop_last() =~= all.take(k));
            assert(all.take(k + 1).last() == r);
        }
        let id = r.id.clone();
        let _ = resources.resources.insert(id, r);
        proof { k = k + 1; }
    }
    assert(all.take(all.len() as int) =~= all);
}

/// Removes the resources filed under the listed ids, with everything
/// generated from them, and returns what was removed, so that its files can
/// go too. No listed id is left; what stays is unchanged; what goes was
/// listed or generated from something that went, so a resource that is
/// neither listed nor generated stays.
pub fn remove_stale(resources: &mut Resources, ids: &Vec<String>) -> (removed: Vec<Resource>)
    requires
        ids_match(old(resources).resources@),
    ensures
        ids_match(final(resources).resources@),
        final(resources).resources@.submap_of(old(resources).resources@),
        forall|i: int| 0 <= i < ids@.len() ==> !final(resources).resources@.dom().contains(#[trigger] ids@[i]@),
        removed_through_chain(old(resources).resources@, final(resources).resources@,
            Set::new(|k: Seq<char>| listed(ids@, k))),
        forall|k: Seq<char>| #[trigger] old(resources).resources@.dom().contains(k) && !listed(ids@, k)
            && !(old(resources).resources@[k].resource_provider is Generated)
            ==> final(resources).resources@.dom().contains(k),
        forall|i: int| 0 <= i < removed@.len() ==> old(resources).resources@.dom().contains(#[trigger] removed@[i].id@)
            && old(resources).resources@[removed@[i].id@] == removed@[i]
            && !final(resources).resources@.dom().contains(removed@[i].id@),
        forall|k: Seq<char>| old(resources).resources@.dom().contains(k) && !final(resources).resources@.dom().contains(k)
            ==> exists|i: int| 0 <= i < removed@.len() && #[trigger] removed@[i].id@ == k,
{
    let ghost m0 = resources.resources@;
    let ghost q = Set::new(|k: Seq<char>| listed(ids@, k));
    let mut removed: Vec<Resource> = Vec::new();
    let mut j: usize = 0;
    while j < ids.len()
        invariant
            j <= ids@.len(),
            ids_match(resources.resources@),
            resources.resources@.submap_of(m0),
            m0 == old(resources).resources@,
            q == Set::new(|k: Seq<char>| listed(ids@, k)),
            forall|i: int| 0 <= i < j ==> !resources.resources@.dom().contains(#[trigger] ids@[i]@),
            removed_through_chain(m0, resources.resources@, q),
            forall|i: int| 0 <= i < removed@.len() ==> m0.dom().contains(#[trigger] removed@[i].id@)
                && m0[removed@[i].id@] == removed@[i]
                && !resources.resources@.dom().contains(removed@[i].id@),
            forall|k: Seq<char>| m0.dom().contains(k) && !resources.resources@.dom().contains(k)
                ==> exists|i: int| 0 <= i < removed@.len() && #[trigger] removed@[i].id@ == k,
        decreases ids@.len() - j,
    {
        let ghost before = resources.resources@;
        let ghost removed_before = removed@;
        let mut r = resources.remove_resource(ids[j].as_str());
        let ghost r_view = r@;
        removed.append(&mut r);
        proof {
            let id = ids@[j as int]@;
            assert forall|k: Seq<char>| #[trigger] resources.resources@.dom().contains(k)
                implies m0.dom().contains(k) && resources.resources@[k] == m0[k] by {
                lemma_submap_get(resources.resources@, before, k);
                lemma_submap_get(before, m0, k);
            }
            assert forall|k: Seq<char>| before.dom().contains(k) && !resources.resources@.dom().contains(k)
                && #[trigger] set![id].contains(k)
                implies q.contains(k) || exists|x: Seq<char>| m0.dom().contains(x)
                    && !before.dom().contains(x) && #[trigger] depends_on_id(m0[k], x) by {
                assert(k == id);
                assert(listed(ids@, k));
            }
            lemma_chain_compose(m0, before, resources.resources@, q, set![id]);
            assert forall|i: int| 0 <= i < j + 1 implies !resources.resources@.dom().contains(#[trigger] ids@[i]@) by {
                if i < j {
                    assert(!before.dom().contains(ids@[i]@));
                }
            }
            assert forall|i: int| 0 <= i < removed@.len() implies m0.dom().contains(#[trigger] removed@[i].id@)
                && m0[removed@[i].id@] == removed@[i]
                && !resources.resources@.dom().contains(removed@[i].id@) by {
                if i < removed_before.len() {
                    assert(removed@[i] == removed_before[i]);
                } else {
                    assert(removed@[i] == r_view[i - removed_before.len()]);
                    lemma_submap_get(before, m0, removed@[i].id@);
                }
            }
            assert forall|k: Seq<char>| m0.dom().contains(k) && !resources.resources@.dom().contains(k)
                implies exists|i: int| 0 <= i < removed@.len() && #[trigger] removed@[i].id@ == k by {
                if before.dom().contains(k) {
                    let i = choose|i: int| 0 <= i < r_view.len() && #[trigger] r_view[i].id@ == k;
                    assert(removed@[removed_before.len() + i] == r_view[i]);
                } else {
                    let i = choose|i: int| 0 <= i < removed_before.len() && #[trigger] removed_before[i].id@ == k;
                    assert(removed@[i] == removed_before[i]);
                }
            }
        }
        j = j + 1;
    }
    proof {
        assert forall|k: Seq<char>| #[trigger] m0.dom().contains(k) && !listed(ids@, k)
            && !(m0[k].resource_provider is Generated) implies resources.resources@.dom().contains(k) by {
            if !resources.resources@.dom().contains(k) {
                assert(m0.dom().contains(k) && !resources.resources@.dom().contains(k));
                assert(!q.contains(k));
                let x = choose|x: Seq<char>| m0.dom().contains(x) && !resources.resources@.dom().contains(x)
                    && #[trigger] depends_on_id(m0[k], x);
            }
        }
    }
    removed
}

} // verus!

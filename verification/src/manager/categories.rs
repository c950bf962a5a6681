//! Categories of images: filters on XMP properties, combined by `or` or
//! `and`, minus exclusions.
use vstd::prelude::*;
use crate::strmap::{StrMap, keys_distinct, lemma_map_of_index};
use crate::text::{push_str, push_char, push_decimal, decimal};

verus! {

/// The XMP namespace of Dublin Core, used when a filter names none.
pub const DC_NAMESPACE: &'static str = "http://purl.org/dc/elements/1.1/";

/// How the filters of a category combine.
#[derive(PartialEq, Eq, Structural, Clone, Copy, Debug)]
pub enum FilterMode {
    Or,
    And,
}

/// A test on one XMP property of an image: its value, or one of the items
/// `path[1]`, `path[2]`, ... of an array at the path, equals `value`.
#[derive(Debug)]
pub struct CategoryFilter {
    pub namespace: Option<String>,
    pub path: String,
    pub value: String,
    pub trace: bool,
}

/// A category: images that pass its filters, combined by its mode, and none
/// of its exclusions.
#[derive(Debug)]
pub struct Category {
    pub mode: FilterMode,
    pub filters: Vec<CategoryFilter>,
    pub exclusion: Option<Vec<CategoryFilter>>,
}

/// What an image's XMP packet holds at one path: the value there, if any,
/// and the values at `path[1]`, `path[2]`, ... up to the first index without
/// one.
#[derive(Debug)]
pub struct PropertyValues {
    pub value: Option<String>,
    pub items: Vec<String>,
}

/// An image with the XMP properties the filters read, by `xmp_key`; `None`
/// when the image has no readable XMP packet.
#[derive(Debug)]
pub struct ImageXmp {
    pub id: String,
    pub properties: Option<StrMap<PropertyValues>>,
}

/// The key under which a property of a namespace is looked up.
pub open spec fn xmp_key_spec(namespace: Seq<char>, path: Seq<char>) -> Seq<char> {
    namespace + seq!['\n'] + path
}

/// The key under which the property at `path` of `namespace` is looked up.
pub fn xmp_key(namespace: &str, path: &str) -> (r: String)
    ensures
        r@ == xmp_key_spec(namespace@, path@),
{
    let mut s = String::new();
    push_str(&mut s, namespace);
    push_char(&mut s, '\n');
    push_str(&mut s, path);
    s
}

/// The path of the item at `index` of an array at `path`: `path[index]`.
pub fn item_path(path: &str, index: u64) -> (r: String)
    ensures
        r@ == path@ + seq!['['] + decimal(index as nat) + seq![']'],
{
    let mut s = String::new();
    push_str(&mut s, path);
    push_char(&mut s, '[');
    push_decimal(&mut s, index);
    push_char(&mut s, ']');
    s
}

/// The namespace a filter reads: its own, else Dublin Core.
pub open spec fn filter_namespace(f: CategoryFilter) -> Seq<char> {
    match f.namespace {
        Some(n) => n@,
        None => DC_NAMESPACE@,
    }
}

/// Whether some item equals `v`.
pub open spec fn has_item(items: Seq<String>, v: Seq<char>) -> bool {
    exists|i: int| 0 <= i < items.len() && items[i]@ == v
}

/// Whether an image passes a filter.
pub open spec fn filter_matches(f: CategoryFilter, img: ImageXmp) -> bool {
    let key = xmp_key_spec(filter_namespace(f), f.path@);
    match img.properties {
        None => false,
        Some(t) => t@.dom().contains(key) && match t@[key].value {
            None => false,
            Some(v) => v@ == f.value@ || has_item(t@[key].items@, f.value@),
        },
    }
}

/// A filter reads its property in the namespace it names, and only a filter
/// that names none reads Dublin Core: an image passes exactly when its XMP
/// properties hold the filter's path in that namespace, with the filter's
/// value as the property's value or as one of its items.
pub proof fn law_filter_reads_its_own_namespace(f: CategoryFilter, img: ImageXmp)
    ensures
        ({
            let ns = match f.namespace {
                Some(n) => n@,
                None => DC_NAMESPACE@,
            };
            let key = ns + seq!['\n'] + f.path@;
            filter_matches(f, img) == match img.properties {
                None => false,
                Some(t) => t@.dom().contains(key) && match t@[key].value {
                    None => false,
                    Some(v) => v@ == f.value@ || has_item(t@[key].items@, f.value@),
                },
            }
        }),
{
    let ns = match f.namespace {
        Some(n) => n@,
        None => DC_NAMESPACE@,
    };
    let key = ns + seq!['\n'] + f.path@;
    assert(xmp_key_spec(filter_namespace(f), f.path@) == key);
    if let Some(t) = img.properties {
        if t@.dom().contains(key) {
        }
    }
}

/// The ids of the images that pass a filter.
pub open spec fn filter_set(f: CategoryFilter, imgs: Seq<ImageXmp>) -> Set<Seq<char>> {
    Set::new(|id: Seq<char>| exists|i: int| 0 <= i < imgs.len() && #[trigger] imgs[i].id@ == id && filter_matches(f, imgs[i]))
}

/// The ids that pass any of the filters.
pub open spec fn union_sets(fs: Seq<CategoryFilter>, imgs: Seq<ImageXmp>) -> Set<Seq<char>>
    decreases fs.len(),
{
    if fs.len() == 0 {
        Set::empty()
    } else {
        union_sets(fs.drop_last(), imgs).union(filter_set(fs.last(), imgs))
    }
}

/// The ids that pass all of the filters; none when there are no filters.
pub open spec fn inter_sets(fs: Seq<CategoryFilter>, imgs: Seq<ImageXmp>) -> Set<Seq<char>>
    decreases fs.len(),
{
    if fs.len() == 0 {
        Set::empty()
    } else if fs.len() == 1 {
        filter_set(fs[0], imgs)
    } else {
        inter_sets(fs.drop_last(), imgs).intersect(filter_set(fs.last(), imgs))
    }
}

/// The ids of the images in a category.
pub open spec fn category_set(c: Category, imgs: Seq<ImageXmp>) -> Set<Seq<char>> {
    let matched = match c.mode {
        FilterMode::Or => union_sets(c.filters@, imgs),
        FilterMode::And => inter_sets(c.filters@, imgs),
    };
    match c.exclusion {
        Some(ex) => if ex@.len() > 0 { matched.difference(union_sets(ex@, imgs)) } else { matched },
        None => matched,
    }
}

proof fn lemma_union_sets_member(fs: Seq<CategoryFilter>, imgs: Seq<ImageXmp>, id: Seq<char>)
    ensures
        union_sets(fs, imgs).contains(id) <==> exists|j: int| 0 <= j < fs.len()
            && #[trigger] filter_set(fs[j], imgs).contains(id),
    decreases fs.len(),
{
    if fs.len() > 0 {
        let p = fs.drop_last();
        lemma_union_sets_member(p, imgs, id);
        if union_sets(p, imgs).contains(id) {
            let j = choose|j: int| 0 <= j < p.len() && #[trigger] filter_set(p[j], imgs).contains(id);
            assert(fs[j] == p[j]);
        }
        if exists|j: int| 0 <= j < fs.len() && #[trigger] filter_set(fs[j], imgs).contains(id) {
            let j = choose|j: int| 0 <= j < fs.len() && #[trigger] filter_set(fs[j], imgs).contains(id);
            if j < fs.len() - 1 {
                assert(p[j] == fs[j]);
            }
        }
    }
}

proof fn lemma_inter_sets_member(fs: Seq<CategoryFilter>, imgs: Seq<ImageXmp>, id: Seq<char>)
    ensures
        inter_sets(fs, imgs).contains(id) <==> fs.len() > 0 && forall|j: int| 0 <= j < fs.len()
            ==> #[trigger] filter_set(fs[j], imgs).contains(id),
    decreases fs.len(),
{
    if fs.len() > 1 {
        let p = fs.drop_last();
        lemma_inter_sets_member(p, imgs, id);
        if inter_sets(fs, imgs).contains(id) {
            assert forall|j: int| 0 <= j < fs.len() implies #[trigger] filter_set(fs[j], imgs).contains(id) by {
                if j < fs.len() - 1 {
                    assert(p[j] == fs[j]);
                }
            }
        }
        if forall|j: int| 0 <= j < fs.len() ==> #[trigger] filter_set(fs[j], imgs).contains(id) {
            assert forall|j: int| 0 <= j < p.len() implies #[trigger] filter_set(p[j], imgs).contains(id) by {
                assert(p[j] == fs[j]);
                assert(filter_set(fs[j], imgs).contains(id));
            }
            assert(filter_set(fs[fs.len() - 1], imgs).contains(id));
        }
    } else if fs.len() == 1 {
        if forall|j: int| 0 <= j < fs.len() ==> #[trigger] filter_set(fs[j], imgs).contains(id) {
            assert(filter_set(fs[0], imgs).contains(id));
        }
    }
}

/// An image is in a category exactly when it passes one of the filters (in
/// `or` mode) or every filter, of which there is at least one (in `and`
/// mode), and passes none of the exclusions.
pub proof fn law_category_membership(c: Category, imgs: Seq<ImageXmp>, id: Seq<char>)
    ensures
        category_set(c, imgs).contains(id) <==> {
            &&& match c.mode {
                FilterMode::Or => exists|j: int| 0 <= j < c.filters@.len()
                    && #[trigger] filter_set(c.filters@[j], imgs).contains(id),
                FilterMode::And => c.filters@.len() > 0 && forall|j: int| 0 <= j < c.filters@.len()
                    ==> #[trigger] filter_set(c.filters@[j], imgs).contains(id),
            }
            &&& !(c.exclusion matches Some(ex) && exists|j: int| 0 <= j < ex@.len()
                && #[trigger] filter_set(ex@[j], imgs).contains(id))
        },
{
    lemma_union_sets_member(c.filters@, imgs, id);
    lemma_inter_sets_member(c.filters@, imgs, id);
    if let Some(ex) = c.exclusion {
        lemma_union_sets_member(ex@, imgs, id);
    }
}

/// Whether `id` is one of `ids`.
pub open spec fn listed(ids: Seq<String>, id: Seq<char>) -> bool {
    exists|i: int| 0 <= i < ids.len() && ids[i]@ == id
}

/// No id occurs twice.
pub open spec fn no_dups(ids: Seq<String>) -> bool {
    forall|i: int, j: int| 0 <= i < ids.len() && 0 <= j < ids.len() && i != j ==> ids[i]@ != ids[j]@
}

/// A list of ids without repeats that holds exactly the set `s`.
pub open spec fn holds_set(ids: Seq<String>, s: Set<Seq<char>>) -> bool {
    &&& no_dups(ids)
    &&& forall|k: Seq<char>| #[trigger] listed(ids, k) <==> s.contains(k)
}

fn is_listed(ids: &Vec<String>, id: &str) -> (b: bool)
    ensures
        b == listed(ids@, id@),
{
    let mut i: usize = 0;
    while i < ids.len()
        invariant
            i <= ids@.len(),
            forall|j: int| 0 <= j < i ==> ids@[j]@ != id@,
        decreases ids@.len() - i,
    {
        if crate::text::str_eq(ids[i].as_str(), id) {
            return true;
        }
        i = i + 1;
    }
    false
}

fn push_unique(ids: &mut Vec<String>, id: &str)
    requires
        no_dups(old(ids)@),
    ensures
        no_dups(final(ids)@),
        forall|k: Seq<char>| #[trigger] listed(final(ids)@, k) <==> listed(old(ids)@, k) || k == id@,
{
    if !is_listed(ids, id) {
        let ghost before = ids@;
        ids.push(id.to_string());
        proof {
            assert forall|i: int, j: int| 0 <= i < ids@.len() && 0 <= j < ids@.len() && i != j
                implies ids@[i]@ != ids@[j]@ by {
                if i < before.len() && j < before.len() {
                    assert(ids@[i] == before[i] && ids@[j] == before[j]);
                } else if i < before.len() {
                    assert(ids@[i] == before[i]);
                } else {
                    assert(ids@[j] == before[j]);
                }
            }
            assert forall|k: Seq<char>| #[trigger] listed(ids@, k) <==> listed(before, k) || k == id@ by {
                if listed(ids@, k) {
                    let i = choose|i: int| 0 <= i < ids@.len() && ids@[i]@ == k;
                    if i < before.len() { assert(ids@[i] == before[i]); }
                }
                if listed(before, k) {
                    let i = choose|i: int| 0 <= i < before.len() && before[i]@ == k;
                    assert(ids@[i] == before[i]);
                }
                if k == id@ { assert(ids@[before.len() as int]@ == k); }
            }
        }
    }
}

/// The union of two id lists.
fn union_ids(a: &Vec<String>, b: &Vec<String>) -> (r: Vec<String>)
    requires
        no_dups(a@),
    ensures
        no_dups(r@),
        forall|k: Seq<char>| #[trigger] listed(r@, k) <==> listed(a@, k) || listed(b@, k),
{
    let mut r: Vec<String> = Vec::new();
    let mut i: usize = 0;
    while i < a.len()
        invariant
            i <= a@.len(),
            no_dups(r@),
            forall|k: Seq<char>| #[trigger] listed(r@, k) <==> exists|j: int| 0 <= j < i && a@[j]@ == k,
        decreases a@.len() - i,
    {
        push_unique(&mut r, a[i].as_str());
        proof {
            assert forall|k: Seq<char>| #[trigger] listed(r@, k) <==> exists|j: int| 0 <= j < i + 1 && a@[j]@ == k by {
                if exists|j: int| 0 <= j < i + 1 && a@[j]@ == k {
                    let j = choose|j: int| 0 <= j < i + 1 && a@[j]@ == k;
                    if j < i { assert(exists|j: int| 0 <= j < i && a@[j]@ == k); }
                }
            }
        }
        i = i + 1;
    }
    let mut i: usize = 0;
    while i < b.len()
        invariant
            i <= b@.len(),
            no_dups(r@),
            forall|k: Seq<char>| #[trigger] listed(r@, k) <==> listed(a@, k) || exists|j: int| 0 <= j < i && b@[j]@ == k,
        decreases b@.len() - i,
    {
        push_unique(&mut r, b[i].as_str());
        proof {
            assert forall|k: Seq<char>| #[trigger] listed(r@, k) <==> listed(a@, k) || exists|j: int| 0 <= j < i + 1 && b@[j]@ == k by {
                if exists|j: int| 0 <= j < i + 1 && b@[j]@ == k {
                    let j = choose|j: int| 0 <= j < i + 1 && b@[j]@ == k;
                    if j < i { assert(exists|j: int| 0 <= j < i && b@[j]@ == k); }
                }
            }
        }
        i = i + 1;
    }
    r
}

/// The ids of `a` that `b` lists (`keep_listed`) or does not list.
fn filter_ids(a: &Vec<String>, b: &Vec<String>, keep_listed: bool) -> (r: Vec<String>)
    requires
        no_dups(a@),
    ensures
        no_dups(r@),
        forall|k: Seq<char>| #[trigger] listed(r@, k) <==> listed(a@, k) && (listed(b@, k) == keep_listed),
{
    let mut r: Vec<String> = Vec::new();
    let mut i: usize = 0;
    while i < a.len()
        invariant
            i <= a@.len(),
            no_dups(r@),
            forall|k: Seq<char>| #[trigger] listed(r@, k) <==> exists|j: int| 0 <= j < i && a@[j]@ == k
                && (listed(b@, k) == keep_listed),
        decreases a@.len() - i,
    {
        if is_listed(b, a[i].as_str()) == keep_listed {
            push_unique(&mut r, a[i].as_str());
        }
        proof {
            assert forall|k: Seq<char>| #[trigger] listed(r@, k) <==> exists|j: int| 0 <= j < i + 1 && a@[j]@ == k
                && (listed(b@, k) == keep_listed) by {
                if exists|j: int| 0 <= j < i + 1 && a@[j]@ == k && (listed(b@, k) == keep_listed) {
                    let j = choose|j: int| 0 <= j < i + 1 && a@[j]@ == k && (listed(b@, k) == keep_listed);
                    if j < i { assert(exists|j: int| 0 <= j < i && a@[j]@ == k && (listed(b@, k) == keep_listed)); }
                }
            }
        }
        i = i + 1;
    }
    proof {
        assert forall|k: Seq<char>| #[trigger] listed(r@, k) <==> listed(a@, k) && (listed(b@, k) == keep_listed) by {
            if listed(a@, k) && (listed(b@, k) == keep_listed) {
                let j = choose|j: int| 0 <= j < a@.len() && a@[j]@ == k;
            }
        }
    }
    r
}

impl CategoryFilter {
    /// The namespace the filter reads: its own, else Dublin Core.
    pub fn namespace_or_dc(&self) -> (r: String)
        ensures
            r@ == filter_namespace(*self),
    {
        match &self.namespace {
            Some(n) => n.clone(),
            None => DC_NAMESPACE.to_string(),
        }
    }

    /// Whether an image passes the filter: it has the property, and the
    /// property or one of its items equals the filter's value.
    pub fn matches(&self, img: &ImageXmp) -> (b: bool)
        ensures
            b == filter_matches(*self, *img),
    {
        let ns = self.namespace_or_dc();
        let key = xmp_key(ns.as_str(), self.path.as_str());
        match &img.properties {
            None => false,
            Some(t) => match t.get(key.as_str()) {
                None => false,
                Some(p) => match &p.value {
                    None => false,
                    Some(v) => {
                        if crate::text::str_eq(v.as_str(), self.value.as_str()) {
                            true
                        } else {
                            is_listed(&p.items, self.value.as_str())
                        }
                    },
                },
            },
        }
    }

    /// The ids of the images that pass the filter.
    pub fn eval(&self, images: &Vec<ImageXmp>) -> (r: Vec<String>)
        ensures
            holds_set(r@, filter_set(*self, images@)),
    {
        let mut r: Vec<String> = Vec::new();
        let mut i: usize = 0;
        while i < images.len()
            invariant
                i <= images@.len(),
                no_dups(r@),
                forall|k: Seq<char>| #[trigger] listed(r@, k) <==> exists|j: int| 0 <= j < i && #[trigger] images@[j].id@ == k
                    && filter_matches(*self, images@[j]),
            decreases images@.len() - i,
        {
            let img = &images[i];
            if self.matches(img) {
                push_unique(&mut r, img.id.as_str());
            }
            proof {
                assert forall|k: Seq<char>| #[trigger] listed(r@, k) <==> exists|j: int| 0 <= j < i + 1
                    && #[trigger] images@[j].id@ == k && filter_matches(*self, images@[j]) by {
                    if exists|j: int| 0 <= j < i + 1 && #[trigger] images@[j].id@ == k && filter_matches(*self, images@[j]) {
                        let j = choose|j: int| 0 <= j < i + 1 && #[trigger] images@[j].id@ == k && filter_matches(*self, images@[j]);
                        if j < i {
                            assert(exists|j: int| 0 <= j < i && #[trigger] images@[j].id@ == k && filter_matches(*self, images@[j]));
                        }
                    }
                }
            }
            i = i + 1;
        }
        proof {
            assert forall|k: Seq<char>| #[trigger] listed(r@, k) <==> filter_set(*self, images@).contains(k) by {}
        }
        r
    }
}

fn union_all(fs: &Vec<CategoryFilter>, images: &Vec<ImageXmp>) -> (r: Vec<String>)
    ensures
        holds_set(r@, union_sets(fs@, images@)),
{
    let mut r: Vec<String> = Vec::new();
    let mut i: usize = 0;
    assert(fs@.take(0) =~= Seq::<CategoryFilter>::empty());
    while i < fs.len()
        invariant
            i <= fs@.len(),
            holds_set(r@, union_sets(fs@.take(i as int), images@)),
        decreases fs@.len() - i,
    {
        let s = fs[i].eval(images);
        r = union_ids(&r, &s);
        proof {
            assert(fs@.take(i + 1).drop_last() =~= fs@.take(i as int));
            assert(fs@.take(i + 1).last() == fs@[i as int]);
        }
        i = i + 1;
    }
    assert(fs@.take(fs@.len() as int) =~= fs@);
    r
}

fn intersect_all(fs: &Vec<CategoryFilter>, images: &Vec<ImageXmp>) -> (r: Vec<String>)
    ensures
        holds_set(r@, inter_sets(fs@, images@)),
{
    if fs.len() == 0 {
        return Vec::new();
    }
    let mut r = fs[0].eval(images);
    let mut i: usize = 1;
    assert(fs@.take(1) =~= seq![fs@[0]]);
    while i < fs.len()
        invariant
            1 <= i <= fs@.len(),
            holds_set(r@, inter_sets(fs@.take(i as int), images@)),
        decreases fs@.len() - i,
    {
        let s = fs[i].eval(images);
        r = filter_ids(&r, &s, true);
        proof {
            assert(fs@.take(i + 1).drop_last() =~= fs@.take(i as int));
            assert(fs@.take(i + 1).last() == fs@[i as int]);
        }
        i = i + 1;
    }
    assert(fs@.take(fs@.len() as int) =~= fs@);
    r
}

impl Category {
    /// The ids of the images in the category: those passing any (`or`) or
    /// all (`and`, none if there are no filters) of its filters, less those
    /// passing any exclusion.
    pub fn eval(&self, images: &Vec<ImageXmp>) -> (r: Vec<String>)
        ensures
            holds_set(r@, category_set(*self, images@)),
    {
        let matched = match self.mode {
            FilterMode::Or => union_all(&self.filters, images),
            FilterMode::And => intersect_all(&self.filters, images),
        };
        match &self.exclusion {
            Some(ex) => {
                if ex.len() > 0 {
                    let excluded = union_all(ex, images);
                    filter_ids(&matched, &excluded, false)
                } else {
                    matched
                }
            },
            None => matched,
        }
    }
}

/// The ids of the images in any of the categories.
pub open spec fn categories_set(cs: Seq<Category>, imgs: Seq<ImageXmp>) -> Set<Seq<char>>
    decreases cs.len(),
{
    if cs.len() == 0 {
        Set::empty()
    } else {
        categories_set(cs.drop_last(), imgs).union(category_set(cs.last(), imgs))
    }
}

/// For each configured name, the ids of the images in any of its categories.
pub fn compute_categories(config: &StrMap<Vec<Category>>, images: &Vec<ImageXmp>) -> (r: StrMap<Vec<String>>)
    ensures
        r@.dom() == config@.dom(),
        forall|k: Seq<char>| #[trigger] r@.dom().contains(k) ==> holds_set(r@[k]@, categories_set(config@[k]@, images@)),
{
    let ghost items = config.items();
    let n = config.len();
    let mut r: StrMap<Vec<String>> = StrMap::new();
    let mut i: usize = 0;
    while i < n
        invariant
            i <= n == items.len(),
            items == config.items(),
            keys_distinct(items),
            forall|k: Seq<char>| #[trigger] r@.dom().contains(k) <==> exists|j: int| 0 <= j < i && items[j].0 == k,
            forall|k: Seq<char>| #[trigger] r@.dom().contains(k) ==> exists|j: int| 0 <= j < i && items[j].0 == k
                && holds_set(r@[k]@, categories_set(items[j].1@, images@)),
        decreases n - i,
    {
        let cats = config.value_at(i);
        let mut matches: Vec<String> = Vec::new();
        let mut c: usize = 0;
        assert(cats@.take(0) =~= Seq::<Category>::empty());
        while c < cats.len()
            invariant
                c <= cats@.len(),
                holds_set(matches@, categories_set(cats@.take(c as int), images@)),
            decreases cats@.len() - c,
        {
            let s = cats[c].eval(images);
            matches = union_ids(&matches, &s);
            proof {
                assert(cats@.take(c + 1).drop_last() =~= cats@.take(c as int));
                assert(cats@.take(c + 1).last() == cats@[c as int]);
            }
            c = c + 1;
        }
        assert(cats@.take(cats@.len() as int) =~= cats@);
        let ghost before = r@;
        let k = config.key_at(i).clone();
        proof {
            if before.dom().contains(k@) {
                let j = choose|j: int| 0 <= j < i && items[j].0 == k@;
                assert(items[j].0 == items[i as int].0);
            }
        }
        let _ = r.insert(k, matches);
        proof {
            assert forall|k2: Seq<char>| #[trigger] r@.dom().contains(k2) <==> exists|j: int| 0 <= j < i + 1 && items[j].0 == k2 by {
                if exists|j: int| 0 <= j < i + 1 && items[j].0 == k2 {
                    let j = choose|j: int| 0 <= j < i + 1 && items[j].0 == k2;
                    if j < i { assert(before.dom().contains(k2)); }
                }
            }
            assert forall|k2: Seq<char>| #[trigger] r@.dom().contains(k2) implies exists|j: int| 0 <= j < i + 1 && items[j].0 == k2
                && holds_set(r@[k2]@, categories_set(items[j].1@, images@)) by {
                if k2 != items[i as int].0 {
                    assert(before.dom().contains(k2));
                }
            }
        }
        i = i + 1;
    }
    proof {
        assert forall|k: Seq<char>| r@.dom().contains(k) <==> config@.dom().contains(k) by {
            if config@.dom().contains(k) {
                let j = choose|j: int| 0 <= j < items.len() && items[j].0 == k;
            }
            if r@.dom().contains(k) {
                let j = choose|j: int| 0 <= j < n && items[j].0 == k;
                lemma_map_of_index(items, j);
            }
        }
        assert(r@.dom() =~= config@.dom());
        assert forall|k: Seq<char>| #[trigger] r@.dom().contains(k) implies holds_set(r@[k]@, categories_set(config@[k]@, images@)) by {
            let j = choose|j: int| 0 <= j < n && items[j].0 == k && holds_set(r@[k]@, categories_set(items[j].1@, images@));
            lemma_map_of_index(items, j);
        }
    }
    r
}

} // verus!

//! Refreshing the server's state from the published gallery: which files to
//! ask for, with which entity tags, and what the new state holds.
use vstd::prelude::*;
use crate::strmap::{keys_distinct, lemma_map_of_index};
use crate::text::push_str;
use crate::datamodel::datamodel::{Resource, ResourceData, ResourceProvider, ProviderView, Dependencies, DependencyType, ThumbnailVariants};



verus! {

/// Why refreshing the state failed.
#[derive(Debug)]
pub struct FetchError {
    pub error: String,
}

impl FetchError {
    /// An error with the given message.
    pub fn error(err: String) -> (e: FetchError)
        ensures
            e.error == err,
    {
        FetchError { error: err }
    }

    /// The error a server status other than OK or Not Modified gives: the
    /// status as written, and the path asked for.
    pub fn server_status(status: &str, path: &str) -> (e: FetchError)
        ensures
            e.error@ == "Server returned "@ + status@ + " for path \""@ + path@ + "\""@,
    {
        let mut s = String::new();
        push_str(&mut s, "Server returned ");
        push_str(&mut s, status);
        push_str(&mut s, " for path \"");
        push_str(&mut s, path);
        push_str(&mut s, "\"");
        FetchError { error: s }
    }

    /// The message of the error.
    pub fn describe(&self) -> (s: String)
        ensures
            s@ == self.error@,
    {
        self.error.clone()
    }
}

/// The address of the manifest of the gallery published at `path`.
pub fn manifest_url(path: &str) -> (r: String)
    ensures
        r@ == path@ + "/manifest.yaml"@,
{
    let mut s = String::new();
    push_str(&mut s, path);
    push_str(&mut s, "/manifest.yaml");
    s
}

/// Two thumbnail tables record the same ids.
pub open spec fn variants_same(a: ThumbnailVariants, b: ThumbnailVariants) -> bool {
    &&& (a.small is Some <==> b.small is Some) && (a.small is Some ==> a.small->Some_0@ == b.small->Some_0@)
    &&& (a.medium is Some <==> b.medium is Some) && (a.medium is Some ==> a.medium->Some_0@ == b.medium->Some_0@)
    &&& (a.large is Some <==> b.large is Some) && (a.large is Some ==> a.large->Some_0@ == b.large->Some_0@)
    &&& (a.huge is Some <==> b.huge is Some) && (a.huge is Some ==> a.huge->Some_0@ == b.huge->Some_0@)
}

/// Two resource contents are the same, string by string.
pub open spec fn data_same(a: ResourceData, b: ResourceData) -> bool {
    match (a, b) {
        (ResourceData::Image(x), ResourceData::Image(y)) => x.name@ == y.name@ && x.date == y.date
            && x.colour@ == y.colour@ && variants_same(x.variants, y.variants),
        (ResourceData::Thumbnail(x), ResourceData::Thumbnail(y)) => x == y,
        (ResourceData::Sitedata(x), ResourceData::Sitedata(y)) => x.filename@ == y.filename@,
        (ResourceData::GeneratedData(x), ResourceData::GeneratedData(y)) => x.name@ == y.name@,
        (ResourceData::TeraTemplate(x), ResourceData::TeraTemplate(y)) => x@ == y@,
        _ => false,
    }
}

/// Two providers are the same: both Dropbox, or both generated with the same
/// dependencies, found the same way.
pub open spec fn provider_same(a: ProviderView, b: ProviderView) -> bool {
    match (a, b) {
        (ProviderView::Dropbox, ProviderView::Dropbox) => true,
        (ProviderView::Generated(x), ProviderView::Generated(y)) => x.map() == y.map() && match (x.dep_type, y.dep_type) {
            (DependencyType::Direct, DependencyType::Direct) => true,
            (DependencyType::Glob(n), DependencyType::Glob(m)) => n.0@ == m.0@,
            _ => false,
        },
        _ => false,
    }
}

/// Two resources are the same in every field.
pub open spec fn resource_same(a: Resource, b: Resource) -> bool {
    &&& a.date_created == b.date_created
    &&& a.id@ == b.id@
    &&& a.content_hash@ == b.content_hash@
    &&& provider_same(a.resource_provider@, b.resource_provider@)
    &&& data_same(a.resource_data, b.resource_data)
    &&& a.path@ == b.path@
}

fn opt_str_eq(a: &Option<String>, b: &Option<String>) -> (r: bool)
    ensures
        r == ((a is Some <==> b is Some) && (a is Some ==> a->Some_0@ == b->Some_0@)),
{
    match (a, b) {
        (Some(x), Some(y)) => crate::text::str_eq(x.as_str(), y.as_str()),
        (None, None) => true,
        _ => false,
    }
}

fn deps_same(a: &Dependencies, b: &Dependencies) -> (r: bool)
    ensures
        r == provider_same(ProviderView::Generated(a@), ProviderView::Generated(b@)),
{
    let type_same = match (a.dep_type(), b.dep_type()) {
        (DependencyType::Direct, DependencyType::Direct) => true,
        (DependencyType::Glob(n), DependencyType::Glob(m)) => crate::text::str_eq(n.0.as_str(), m.0.as_str()),
        _ => false,
    };
    if !type_same {
        return false;
    }
    let da = a.get_dependencies();
    let db = b.get_dependencies();
    if da.len() != db.len() {
        proof {
            crate::strmap::lemma_deep_items_map(*da);
            crate::strmap::lemma_deep_items_map(*db);
            lemma_map_len(da.deep_items(), db.deep_items());
        }
        return false;
    }
    let ghost ia = da.deep_items();
    let n = da.len();
    let mut i: usize = 0;
    proof {
        crate::strmap::lemma_deep_items_map(*da);
        crate::strmap::lemma_deep_items_map(*db);
    }
    while i < n
        invariant
            i <= n == ia.len() == db.items().len(),
            ia == da.deep_items(),
            ia == a@.entries,
            db.deep_items() == b@.entries,
            keys_distinct(ia),
            keys_distinct(db.deep_items()),
            forall|j: int| 0 <= j < i ==> b@.map().dom().contains(#[trigger] ia[j].0) && b@.map()[ia[j].0] == ia[j].1,
        decreases n - i,
    {
        let k = da.key_at(i);
        let v = da.value_at(i);
        proof { assert(ia[i as int] == (k@, v@)); }
        match db.get(k.as_str()) {
            Some(w) => {
                if !crate::text::str_eq(w.as_str(), v.as_str()) {
                    proof {
                        lemma_map_of_index(ia, i as int);
                        crate::strmap::lemma_deep_items_map(*db);
                    }
                    return false;
                }
                proof { crate::strmap::lemma_deep_items_map(*db); }
            },
            None => {
                proof {
                    lemma_map_of_index(ia, i as int);
                    crate::strmap::lemma_deep_items_map(*db);
                }
                return false;
            },
        }
        i = i + 1;
    }
    proof {
        lemma_same_maps(ia, b@.entries);
    }
    true
}

/// Maps of entry lists with distinct keys have as many keys as entries, so
/// lists of different lengths give different maps.
proof fn lemma_map_len(a: Seq<(Seq<char>, Seq<char>)>, b: Seq<(Seq<char>, Seq<char>)>)
    requires
        keys_distinct(a),
        keys_distinct(b),
        a.len() != b.len(),
    ensures
        crate::strmap::map_of(a) != crate::strmap::map_of(b),
{
    lemma_map_dom_len(a);
    lemma_map_dom_len(b);
}

/// The domain of the map of an entry list with distinct keys has one key per entry.
proof fn lemma_map_dom_len(a: Seq<(Seq<char>, Seq<char>)>)
    requires
        keys_distinct(a),
    ensures
        crate::strmap::map_of(a).dom().finite(),
        crate::strmap::map_of(a).dom().len() == a.len(),
    decreases a.len(),
{
    if a.len() == 0 {
        assert(crate::strmap::map_of(a).dom() =~= Set::<Seq<char>>::empty());
    } else {
        let p = a.drop_last();
        assert(keys_distinct(p));
        lemma_map_dom_len(p);
        assert(crate::strmap::map_of(a).dom() =~= crate::strmap::map_of(p).dom().insert(a.last().0)) by {
            assert forall|k: Seq<char>| crate::strmap::map_of(a).dom().contains(k)
                <==> crate::strmap::map_of(p).dom().contains(k) || k == a.last().0 by {
                if crate::strmap::has_key(a, k) && k != a.last().0 {
                    let j = choose|j: int| 0 <= j < a.len() && a[j].0 == k;
                    assert(p[j].0 == k);
                }
                if crate::strmap::has_key(p, k) {
                    let j = choose|j: int| 0 <= j < p.len() && p[j].0 == k;
                    assert(a[j].0 == k);
                }
                if k == a.last().0 {
                    assert(a[a.len() - 1].0 == k);
                }
            }
        }
        assert(!crate::strmap::map_of(p).dom().contains(a.last().0)) by {
            if crate::strmap::has_key(p, a.last().0) {
                let j = choose|j: int| 0 <= j < p.len() && p[j].0 == a.last().0;
                assert(a[j].0 == a[a.len() - 1].0);
            }
        }
    }
}

/// Two entry lists with distinct keys, of one length, where every entry of
/// the first is in the map of the second, give the same map.
proof fn lemma_same_maps(a: Seq<(Seq<char>, Seq<char>)>, b: Seq<(Seq<char>, Seq<char>)>)
    requires
        keys_distinct(a),
        keys_distinct(b),
        a.len() == b.len(),
        forall|j: int| 0 <= j < a.len() ==> crate::strmap::map_of(b).dom().contains(#[trigger] a[j].0)
            && crate::strmap::map_of(b)[a[j].0] == a[j].1,
    ensures
        crate::strmap::map_of(a) == crate::strmap::map_of(b),
{
    let ma = crate::strmap::map_of(a);
    let mb = crate::strmap::map_of(b);
    lemma_map_dom_len(a);
    lemma_map_dom_len(b);
    assert(ma.dom().subset_of(mb.dom())) by {
        assert forall|k: Seq<char>| ma.dom().contains(k) implies mb.dom().contains(k) by {
            let j = choose|j: int| 0 <= j < a.len() && a[j].0 == k;
        }
    }
    vstd::set_lib::lemma_subset_equality(ma.dom(), mb.dom());
    assert forall|k: Seq<char>| #[trigger] ma.dom().contains(k) implies ma[k] == mb[k] by {
        let j = choose|j: int| 0 <= j < a.len() && a[j].0 == k;
        lemma_map_of_index(a, j);
    }
    assert(ma =~= mb);
}

fn data_eq(a: &ResourceData, b: &ResourceData) -> (r: bool)
    ensures
        r == data_same(*a, *b),
{
    match (a, b) {
        (ResourceData::Image(x), ResourceData::Image(y)) => {
            crate::text::str_eq(x.name.as_str(), y.name.as_str()) && x.date == y.date
                && crate::text::str_eq(x.colour.as_str(), y.colour.as_str())
                && opt_str_eq(&x.variants.small, &y.variants.small)
                && opt_str_eq(&x.variants.medium, &y.variants.medium)
                && opt_str_eq(&x.variants.large, &y.variants.large)
                && opt_str_eq(&x.variants.huge, &y.variants.huge)
        },
        (ResourceData::Thumbnail(x), ResourceData::Thumbnail(y)) => {
            x.size == y.size && x.width == y.width && x.height == y.height
        },
        (ResourceData::Sitedata(x), ResourceData::Sitedata(y)) => crate::text::str_eq(x.filename.as_str(), y.filename.as_str()),
        (ResourceData::GeneratedData(x), ResourceData::GeneratedData(y)) => crate::text::str_eq(x.name.as_str(), y.name.as_str()),
        (ResourceData::TeraTemplate(x), ResourceData::TeraTemplate(y)) => crate::text::str_eq(x.as_str(), y.as_str()),
        _ => false,
    }
}

/// Whether two resources are the same in every field.
pub fn resource_eq(a: &Resource, b: &Resource) -> (r: bool)
    ensures
        r == resource_same(*a, *b),
{
    let provider = match (&a.resource_provider, &b.resource_provider) {
        (ResourceProvider::Dropbox, ResourceProvider::Dropbox) => true,
        (ResourceProvider::Generated(x), ResourceProvider::Generated(y)) => deps_same(x, y),
        _ => false,
    };
    a.date_created == b.date_created && crate::text::str_eq(a.id.as_str(), b.id.as_str())
        && crate::text::str_eq(a.content_hash.as_str(), b.content_hash.as_str()) && provider
        && data_eq(&a.resource_data, &b.resource_data) && crate::text::str_eq(a.path.as_str(), b.path.as_str())
}

} // verus!

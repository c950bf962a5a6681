//! The server's state: the gallery manifest, the print offers and a cache
//! from image names to print ids.
use vstd::prelude::*;
use crate::strmap::{StrMap, deep_map};
use crate::datamodel::datamodel::{Resource, Resources, ImageMetadata, ResourceDataType};
use crate::datamodel::print::{PrintCompiled, PrintDefinition, all_prints};
use crate::server::util::{lemma_all_prints_take, first_with_id, lemma_first_with_id_append};
use crate::strmap::{keys_distinct, has_key, lemma_map_of_index};
use crate::text::push_str;
use crate::datamodel::datamodel::ResourceData;
use crate::datamodel::print::{PrintCompiledView, Variant};
use crate::server::refresh::{resource_same, resource_eq};

verus! {

/// Every print names an image resource.
pub open spec fn prints_name_images(ps: Seq<PrintCompiled>, res: Map<Seq<char>, Resource>) -> bool {
    forall|i: int| 0 <= i < ps.len() ==> res.dom().contains(#[trigger] ps[i].id@)
        && ImageMetadata::from_data(res[ps[i].id@].resource_data) is Some
}

/// The name of the image resource `id`.
pub open spec fn image_name(res: Map<Seq<char>, Resource>, id: Seq<char>) -> Seq<char> {
    ImageMetadata::from_data(res[id].resource_data)->Some_0.name@
}

/// Image name to print id, over the prints in order; a later print with the
/// same image name replaces an earlier one.
pub open spec fn name_index(ps: Seq<PrintCompiled>, res: Map<Seq<char>, Resource>) -> Map<Seq<char>, Seq<char>>
    decreases ps.len(),
{
    if ps.len() == 0 {
        Map::empty()
    } else {
        name_index(ps.drop_last(), res).insert(image_name(res, ps.last().id@), ps.last().id@)
    }
}

/// Every name of `lookup` leads to a print of `ps`, whose image is a resource
/// of `res` that bears that name.
pub open spec fn lookup_sound(lookup: Map<Seq<char>, Seq<char>>, ps: Seq<PrintCompiled>, res: Map<Seq<char>, Resource>) -> bool {
    forall|n: Seq<char>| #[trigger] lookup.dom().contains(n) ==> {
        &&& first_with_id(ps, lookup[n]) is Some
        &&& res.dom().contains(lookup[n])
        &&& ImageMetadata::from_data(res[lookup[n]].resource_data) is Some
        &&& image_name(res, lookup[n]) == n
    }
}

/// When every print names an image, every name that the name index holds
/// leads to a print that a search by id finds, whose image bears that name.
pub proof fn law_name_index_leads_to_named_prints(ps: Seq<PrintCompiled>, res: Map<Seq<char>, Resource>)
    requires
        prints_name_images(ps, res),
    ensures
        lookup_sound(name_index(ps, res), ps, res),
    decreases ps.len(),
{
    if ps.len() > 0 {
        let p = ps.drop_last();
        let last = ps.last();
        assert forall|i: int| 0 <= i < p.len() implies res.dom().contains(#[trigger] p[i].id@)
            && ImageMetadata::from_data(res[p[i].id@].resource_data) is Some by {
            assert(p[i] == ps[i]);
        }
        law_name_index_leads_to_named_prints(p, res);
        assert(ps =~= p + seq![last]);
        assert(ps[ps.len() - 1] == last);
        let idx = name_index(ps, res);
        assert forall|n: Seq<char>| #[trigger] idx.dom().contains(n) implies {
            &&& first_with_id(ps, idx[n]) is Some
            &&& res.dom().contains(idx[n])
            &&& ImageMetadata::from_data(res[idx[n]].resource_data) is Some
            &&& image_name(res, idx[n]) == n
        } by {
            let id = idx[n];
            lemma_first_with_id_append(p, seq![last], id);
            if n == image_name(res, last.id@) {
                assert(id == last.id@);
                assert(seq![last][0] == last);
                assert(first_with_id(seq![last], id) == Some(last));
            } else {
                assert(name_index(p, res).dom().contains(n));
                assert(id == name_index(p, res)[n]);
            }
        }
    }
}

/// The state of the store server.
#[derive(Debug)]
pub struct State {
    resources: Resources,
    resources_etag: Option<String>,
    prints: PrintDefinition<PrintCompiled>,
    prints_etag: Option<String>,
    lookup_cache: StrMap<String>,
}

impl State {
    /// Every name of the cache leads to a print of the offers, whose image is
    /// a resource of the manifest that bears that name.
    pub open spec fn names_lead_to_prints(self) -> bool {
        lookup_sound(self.spec_lookup(), all_prints(self.spec_prints().prints.items()),
            self.spec_resources().resources@)
    }

    /// The manifest of the gallery.
    pub closed spec fn spec_resources(self) -> Resources {
        self.resources
    }

    /// The print offers.
    pub closed spec fn spec_prints(self) -> PrintDefinition<PrintCompiled> {
        self.prints
    }

    /// Image name to print id.
    pub closed spec fn spec_lookup(self) -> Map<Seq<char>, Seq<char>> {
        deep_map(self.lookup_cache@)
    }

    /// The entity tag of the manifest the state was made from.
    pub closed spec fn spec_resources_etag(self) -> Option<String> {
        self.resources_etag
    }

    /// The entity tag of the print offers the state holds.
    pub closed spec fn spec_prints_etag(self) -> Option<String> {
        self.prints_etag
    }

    /// An empty state: no resources, no prints, no tags.
    pub fn new() -> (s: State)
        ensures
            s.spec_resources().resources@ == Map::<Seq<char>, Resource>::empty(),
            s.spec_prints().variants@ == Map::<Seq<char>, crate::datamodel::print::Variant>::empty(),
            s.spec_prints().prints.items() == Seq::<(Seq<char>, Vec<PrintCompiled>)>::empty(),
            s.spec_lookup() == Map::<Seq<char>, Seq<char>>::empty(),
            s.spec_resources_etag() is None,
            s.spec_prints_etag() is None,
            s.names_lead_to_prints(),
    {
        let s = State {
            resources: Resources { resources: StrMap::new() },
            resources_etag: None,
            prints: PrintDefinition::new(),
            prints_etag: None,
            lookup_cache: StrMap::new(),
        };
        assert(deep_map(s.lookup_cache@) =~= Map::<Seq<char>, Seq<char>>::empty());
        s
    }

    /// The manifest of the gallery.
    pub fn resources(&self) -> (r: &Resources)
        ensures
            *r == self.spec_resources(),
    {
        &self.resources
    }

    /// The print offers.
    pub fn prints(&self) -> (p: &PrintDefinition<PrintCompiled>)
        ensures
            *p == self.spec_prints(),
    {
        &self.prints
    }

    /// The id of the print whose image is named `name`.
    pub fn lookup_id(&self, name: &str) -> (r: Option<&String>)
        ensures
            r is None <==> !self.spec_lookup().dom().contains(name@),
            r matches Some(id) ==> id@ == self.spec_lookup()[name@],
    {
        self.lookup_cache.get(name)
    }

    /// Rebuilds the name cache from the prints. Every print must name an image
    /// resource.
    fn generate_cache(&mut self)
        requires
            prints_name_images(all_prints(old(self).prints.prints.items()), old(self).resources.resources@),
        ensures
            final(self).spec_resources() == old(self).spec_resources(),
            final(self).spec_prints() == old(self).spec_prints(),
            final(self).spec_resources_etag() == old(self).spec_resources_etag(),
            final(self).spec_prints_etag() == old(self).spec_prints_etag(),
            final(self).spec_lookup() == name_index(all_prints(old(self).prints.prints.items()), old(self).resources.resources@),
    {
        let ghost cats = self.prints.prints.items();
        let ghost res = self.resources.resources@;
        let mut cache: StrMap<String> = StrMap::new();
        let n = self.prints.prints.len();
        let mut i: usize = 0;
        assert(cats.take(0) =~= Seq::<(Seq<char>, Vec<PrintCompiled>)>::empty());
        assert(deep_map(cache@) =~= Map::<Seq<char>, Seq<char>>::empty());
        while i < n
            invariant
                i <= n == cats.len(),
                cats == self.prints.prints.items(),
                res == self.resources.resources@,
                prints_name_images(all_prints(cats), res),
                deep_map(cache@) == name_index(all_prints(cats.take(i as int)), res),
            decreases n - i,
        {
            let category_prints = self.prints.prints.value_at(i);
            let ghost before = all_prints(cats.take(i as int));
            proof {
                lemma_all_prints_take(cats, i as int);
                crate::server::util::lemma_all_prints_append(cats.take(i + 1), cats.skip(i + 1));
                assert(cats =~= cats.take(i + 1) + cats.skip(i + 1));
            }
            let mut j: usize = 0;
            assert(before + category_prints@.take(0) =~= before);
            while j < category_prints.len()
                invariant
                    i < n == cats.len(),
                    cats == self.prints.prints.items(),
                    res == self.resources.resources@,
                    *category_prints == cats[i as int].1,
                    before == all_prints(cats.take(i as int)),
                    all_prints(cats) == before + category_prints@ + all_prints(cats.skip(i + 1)),
                    prints_name_images(all_prints(cats), res),
                    j <= category_prints@.len(),
                    deep_map(cache@) == name_index(before + category_prints@.take(j as int), res),
                decreases category_prints@.len() - j,
            {
                let print = &category_prints[j];
                proof {
                    let k = before.len() + j;
                    assert(all_prints(cats)[k] == print);
                }
                let res_entry = self.resources.resources.get(print.id.as_str()).unwrap();
                let name = &res_entry.as_data::<ImageMetadata>().name;
                let ghost old_cache = cache@;
                cache.insert(name.clone(), print.id.clone());
                proof {
                    let s1 = before + category_prints@.take(j as int);
                    let s2 = before + category_prints@.take(j + 1);
                    assert(s2.drop_last() =~= s1);
                    assert(s2.last() == *print);
                    assert(deep_map(cache@) =~= deep_map(old_cache).insert(name@, print.id@));
                }
                j = j + 1;
            }
            proof {
                assert(category_prints@.take(category_prints@.len() as int) =~= category_prints@);
            }
            i = i + 1;
        }
        assert(cats.take(n as int) =~= cats);
        self.lookup_cache = cache;
    }
}

/// The first generated data resource, in order, with the given name.
pub open spec fn first_generated(items: Seq<(Seq<char>, Resource)>, name: Seq<char>) -> Option<Resource>
    decreases items.len(),
{
    if items.len() == 0 {
        None
    } else if items[0].1.resource_data matches ResourceData::GeneratedData(g) && g.name@ == name {
        Some(items[0].1)
    } else {
        first_generated(items.skip(1), name)
    }
}

/// The first generated data resource named `name`.
pub fn find_generated<'a>(resources: &'a Resources, name: &str) -> (r: Option<&'a Resource>)
    ensures
        match first_generated(resources.resources.items(), name@) {
            Some(x) => r matches Some(y) && *y == x,
            None => r is None,
        },
{
    let ghost items = resources.resources.items();
    let n = resources.resources.len();
    let mut i: usize = 0;
    assert(items.skip(0) =~= items);
    while i < n
        invariant
            i <= n == items.len(),
            items == resources.resources.items(),
            first_generated(items, name@) == first_generated(items.skip(i as int), name@),
        decreases n - i,
    {
        let x = resources.resources.value_at(i);
        proof {
            assert(items.skip(i as int)[0] == items[i as int]);
            assert(items.skip(i as int).skip(1) =~= items.skip(i + 1));
        }
        match &x.resource_data {
            ResourceData::GeneratedData(g) => {
                if crate::text::str_eq(g.name.as_str(), name) {
                    return Some(x);
                }
            },
            _ => {},
        }
        i = i + 1;
    }
    proof {
        assert(items.skip(n as int) =~= Seq::<(Seq<char>, Resource)>::empty());
    }
    None
}

/// The print offers by category, each print by its view.
pub open spec fn prints_view(p: PrintDefinition<PrintCompiled>) -> Seq<(Seq<char>, Seq<PrintCompiledView>)> {
    p.prints.items().map_values(|e: (Seq<char>, Vec<PrintCompiled>)| (e.0, e.1@.map_values(|c: PrintCompiled| c@)))
}

fn copy_prints_list(v: &Vec<PrintCompiled>) -> (r: Vec<PrintCompiled>)
    ensures
        r@.map_values(|c: PrintCompiled| c@) == v@.map_values(|c: PrintCompiled| c@),
{
    let mut r: Vec<PrintCompiled> = Vec::new();
    let mut i: usize = 0;
    while i < v.len()
        invariant
            i <= v@.len(),
            r@.len() == i,
            forall|k: int| 0 <= k < i ==> #[trigger] r@[k]@ == v@[k]@,
        decreases v@.len() - i,
    {
        let c = v[i].clone();
        r.push(c);
        i = i + 1;
    }
    assert(r@.map_values(|c: PrintCompiled| c@) =~= v@.map_values(|c: PrintCompiled| c@));
    r
}

/// A copy of the print offers: the same variants and the same prints.
fn copy_prints(p: &PrintDefinition<PrintCompiled>) -> (r: PrintDefinition<PrintCompiled>)
    ensures
        r.variants@ == p.variants@,
        prints_view(r) == prints_view(*p),
{
    let mut variants: StrMap<Variant> = StrMap::new();
    let ghost vitems = p.variants.items();
    let nv = p.variants.len();
    let mut i: usize = 0;
    while i < nv
        invariant
            i <= nv == vitems.len(),
            vitems == p.variants.items(),
            keys_distinct(vitems),
            variants@ == crate::strmap::map_of(vitems.take(i as int)),
        decreases nv - i,
    {
        let k = p.variants.key_at(i).clone();
        let v = p.variants.value_at(i).clone();
        proof {
            let t = vitems.take(i as int);
            if has_key(t, k@) {
                let j = choose|j: int| 0 <= j < t.len() && t[j].0 == k@;
                assert(vitems[j].0 == vitems[i as int].0);
            }
        }
        let _ = variants.insert(k, v);
        proof {
            let t0 = vitems.take(i as int);
            let t1 = vitems.take(i + 1);
            assert(t1 =~= t0.push(vitems[i as int]));
            assert(keys_distinct(t1));
            assert forall|key: Seq<char>| has_key(t1, key) <==> has_key(t0, key) || key == vitems[i as int].0 by {
                if has_key(t1, key) {
                    let j = choose|j: int| 0 <= j < t1.len() && t1[j].0 == key;
                    if j < i { assert(t0[j] == t1[j]); }
                }
                if has_key(t0, key) {
                    let j = choose|j: int| 0 <= j < t0.len() && t0[j].0 == key;
                    assert(t1[j] == t0[j]);
                }
                if key == vitems[i as int].0 { assert(t1[i as int].0 == key); }
            }
            assert forall|key: Seq<char>| #[trigger] has_key(t0, key) implies crate::strmap::map_of(t1)[key] == crate::strmap::map_of(t0)[key] by {
                let j = choose|j: int| 0 <= j < t0.len() && t0[j].0 == key;
                lemma_map_of_index(t0, j);
                lemma_map_of_index(t1, j);
            }
            lemma_map_of_index(t1, i as int);
            assert(variants@ =~= crate::strmap::map_of(t1));
        }
        i = i + 1;
    }
    assert(vitems.take(nv as int) =~= vitems);
    let mut prints: StrMap<Vec<PrintCompiled>> = StrMap::new();
    let ghost pitems = p.prints.items();
    let np = p.prints.len();
    let mut i: usize = 0;
    assert(prints.items() =~= Seq::<(Seq<char>, Vec<PrintCompiled>)>::empty());
    while i < np
        invariant
            i <= np == pitems.len(),
            pitems == p.prints.items(),
            keys_distinct(pitems),
            prints.items().len() == i,
            forall|j: int| 0 <= j < i ==> #[trigger] prints.items()[j].0 == pitems[j].0
                && prints.items()[j].1@.map_values(|c: PrintCompiled| c@) == pitems[j].1@.map_values(|c: PrintCompiled| c@),
        decreases np - i,
    {
        let k = p.prints.key_at(i).clone();
        let v = copy_prints_list(p.prints.value_at(i));
        proof {
            if has_key(prints.items(), k@) {
                let j = choose|j: int| 0 <= j < prints.items().len() && prints.items()[j].0 == k@;
                assert(pitems[j].0 == pitems[i as int].0);
            }
        }
        let _ = prints.insert(k, v);
        i = i + 1;
    }
    let r = PrintDefinition { variants, prints };
    assert(prints_view(r) =~= prints_view(*p));
    r
}

/// What to ask for after a new manifest: the print offers, at this address,
/// with this entity tag if the offers are unchanged.
#[derive(Debug)]
pub struct PrintsRequest {
    pub url: String,
    pub etag: Option<String>,
}

impl State {
    /// The entity tag of the manifest the state was made from.
    pub fn resources_etag(&self) -> (r: Option<String>)
        ensures
            r == self.spec_resources_etag(),
    {
        match &self.resources_etag {
            Some(t) => Some(t.clone()),
            None => None,
        }
    }

    /// The state a newly fetched manifest of the gallery at `path` gives,
    /// with the manifest's entity tag. If the manifest records the print
    /// offers, they are to be asked for next, at `path`, `/` and the offers'
    /// path; if the old state recorded the very same offers resource, the old
    /// offers are kept meanwhile and asked for with their entity tag.
    pub fn from_manifest(old: &State, resources: Resources, etag: Option<String>, path: &str) -> (r: (State, Option<PrintsRequest>))
        ensures
            r.0.spec_resources() == resources,
            r.0.spec_resources_etag() == etag,
            r.0.names_lead_to_prints(),
            r.0.spec_lookup() == Map::<Seq<char>, Seq<char>>::empty(),
            match first_generated(resources.resources.items(), "prints"@) {
                None => r.1 is None && r.0.spec_prints_etag() is None
                    && r.0.spec_prints().variants@ == Map::<Seq<char>, Variant>::empty()
                    && r.0.spec_prints().prints.items().len() == 0,
                Some(p) => r.1 matches Some(req) && req.url@ == path@ + "/"@ + p.path@ && r.0.spec_prints_etag() is None
                    && match first_generated(old.spec_resources().resources.items(), "prints"@) {
                        Some(q) => if resource_same(q, p) {
                            &&& req.etag == old.spec_prints_etag()
                            &&& r.0.spec_prints().variants@ == old.spec_prints().variants@
                            &&& prints_view(r.0.spec_prints()) == prints_view(old.spec_prints())
                        } else {
                            &&& req.etag is None
                            &&& r.0.spec_prints().variants@ == Map::<Seq<char>, Variant>::empty()
                            &&& r.0.spec_prints().prints.items().len() == 0
                        },
                        None => req.etag is None
                            && r.0.spec_prints().variants@ == Map::<Seq<char>, Variant>::empty()
                            && r.0.spec_prints().prints.items().len() == 0,
                    },
            },
    {
        let mut s = State::new();
        let (request, kept) = match find_generated(&resources, "prints") {
            None => (None, None),
            Some(prints) => {
                let mut url = String::new();
                push_str(&mut url, path);
                push_str(&mut url, "/");
                push_str(&mut url, prints.path.as_str());
                match find_generated(&old.resources, "prints") {
                    Some(old_prints) => {
                        if resource_eq(old_prints, prints) {
                            (Some(PrintsRequest { url, etag: old.resources_etag_of_prints() }), Some(copy_prints(&old.prints)))
                        } else {
                            (Some(PrintsRequest { url, etag: None }), None)
                        }
                    },
                    None => (Some(PrintsRequest { url, etag: None }), None),
                }
            },
        };
        s.resources = resources;
        s.resources_etag = etag;
        match kept {
            Some(p) => s.prints = p,
            None => {},
        }
        (s, request)
    }

    fn resources_etag_of_prints(&self) -> (r: Option<String>)
        ensures
            r == self.spec_prints_etag(),
    {
        match &self.prints_etag {
            Some(t) => Some(t.clone()),
            None => None,
        }
    }

    /// Whether every print of `prints` names an image of the state's manifest.
    pub fn prints_fit(&self, prints: &PrintDefinition<PrintCompiled>) -> (b: bool)
        ensures
            b == prints_name_images(all_prints(prints.prints.items()), self.spec_resources().resources@),
    {
        let ghost cats = prints.prints.items();
        let ghost res = self.resources.resources@;
        let n = prints.prints.len();
        let mut i: usize = 0;
        assert(cats.take(0) =~= Seq::<(Seq<char>, Vec<PrintCompiled>)>::empty());
        while i < n
            invariant
                i <= n == cats.len(),
                cats == prints.prints.items(),
                res == self.resources.resources@,
                prints_name_images(all_prints(cats.take(i as int)), res),
            decreases n - i,
        {
            let ps = prints.prints.value_at(i);
            proof { lemma_all_prints_take(cats, i as int); }
            let ghost before = all_prints(cats.take(i as int));
            let mut j: usize = 0;
            while j < ps.len()
                invariant
                    j <= ps@.len(),
                    i < n == cats.len(),
                    cats == prints.prints.items(),
                    *ps == cats[i as int].1,
                    before == all_prints(cats.take(i as int)),
                    res == self.resources.resources@,
                    prints_name_images(before, res),
                    forall|m: int| 0 <= m < j ==> res.dom().contains(#[trigger] ps@[m].id@)
                        && ImageMetadata::from_data(res[ps@[m].id@].resource_data) is Some,
                decreases ps@.len() - j,
            {
                match self.resources.resources.get(ps[j].id.as_str()) {
                    None => {
                        proof { lemma_not_fit(cats, i as int, j as int, res); }
                        return false;
                    },
                    Some(x) => {
                        match x.resource_data.to_value::<ImageMetadata>() {
                            None => {
                                proof { lemma_not_fit(cats, i as int, j as int, res); }
                                return false;
                            },
                            Some(_) => {},
                        }
                    },
                }
                j = j + 1;
            }
            proof {
                let next = all_prints(cats.take(i + 1));
                assert(next == before + ps@);
                assert forall|m: int| 0 <= m < next.len() implies res.dom().contains(#[trigger] next[m].id@)
                    && ImageMetadata::from_data(res[next[m].id@].resource_data) is Some by {
                    if m >= before.len() {
                        assert(next[m] == ps@[m - before.len()]);
                    } else {
                        assert(next[m] == before[m]);
                    }
                }
            }
            i = i + 1;
        }
        assert(cats.take(n as int) =~= cats);
        true
    }

    /// Installs newly fetched print offers with their entity tag and rebuilds
    /// the name cache. Every print must name an image of the manifest.
    pub fn install_prints(&mut self, prints: PrintDefinition<PrintCompiled>, etag: Option<String>)
        requires
            prints_name_images(all_prints(prints.prints.items()), old(self).spec_resources().resources@),
        ensures
            final(self).spec_resources() == old(self).spec_resources(),
            final(self).spec_resources_etag() == old(self).spec_resources_etag(),
            final(self).spec_prints() == prints,
            final(self).spec_prints_etag() == etag,
            final(self).spec_lookup() == name_index(all_prints(prints.prints.items()), old(self).spec_resources().resources@),
            final(self).names_lead_to_prints(),
    {
        self.prints = prints;
        self.generate_cache();
        self.prints_etag = etag;
        proof {
            law_name_index_leads_to_named_prints(all_prints(self.prints.prints.items()), self.resources.resources@);
        }
    }
}

/// A print that does not name an image of the manifest keeps the offers
/// from fitting.
proof fn lemma_not_fit(cats: Seq<(Seq<char>, Vec<PrintCompiled>)>, i: int, j: int, res: Map<Seq<char>, Resource>)
    requires
        0 <= i < cats.len(),
        0 <= j < cats[i].1@.len(),
        !(res.dom().contains(cats[i].1@[j].id@) && ImageMetadata::from_data(res[cats[i].1@[j].id@].resource_data) is Some),
    ensures
        !prints_name_images(all_prints(cats), res),
{
    lemma_all_prints_take(cats, i);
    crate::server::util::lemma_all_prints_append(cats.take(i + 1), cats.skip(i + 1));
    assert(cats =~= cats.take(i + 1) + cats.skip(i + 1));
    let k = all_prints(cats.take(i)).len() + j;
    assert(all_prints(cats)[k] == cats[i].1@[j]);
}

} // verus!

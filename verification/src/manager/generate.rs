//! Generated content: finding what is outdated and removing it until nothing
//! generated is outdated any more.
use vstd::prelude::*;

use crate::datamodel::datamodel::{Dependencies, DependenciesView, DependencyType, Resource, Resources, ResourceProvider, ids_match};
use crate::manager::dependency::{
    DependencyManger, DepFunc, dep_func_named, outdated, lemma_submap_get, glob_map, dep_bytes, removed_through_chain,
    lemma_chain_compose, deps_outdated, glob_changed,
};
use crate::datamodel::datamodel::depends_on_id;
use crate::manager::config::{path_join, path_join_spec};
use crate::datamodel::datamodel::{ResourceData, GeneratedDataDesc, DependencyFuncName};
use crate::strmap::{keys_distinct, map_of, lemma_map_of_index};

verus! {

/// A dependency record can be evaluated: it is direct, or names a registered
/// glob function.
pub open spec fn deps_valid(d: DependenciesView) -> bool {
    match d.dep_type {
        DependencyType::Direct => true,
        DependencyType::Glob(n) => dep_func_named(n.0@) is Some,
    }
}

/// Every generated resource of `m` has a record that can be evaluated.
pub open spec fn all_deps_valid(m: Map<Seq<char>, Resource>) -> bool {
    forall|k: Seq<char>| #[trigger] m.dom().contains(k) ==> (m[k].resource_provider matches ResourceProvider::Generated(d)
        ==> deps_valid(d@))
}

/// Resource `x` was generated and its record is outdated against `res`.
pub open spec fn resource_outdated(x: Resource, res: Resources) -> bool {
    match x.resource_provider {
        ResourceProvider::Generated(d) => outdated(d@, res),
        _ => false,
    }
}

/// The ids of the outdated generated resources among `items`, in order.
pub open spec fn outdated_seq(items: Seq<(Seq<char>, Resource)>, res: Resources) -> Seq<Seq<char>>
    decreases items.len(),
{
    if items.len() == 0 {
        Seq::empty()
    } else if resource_outdated(items.last().1, res) {
        outdated_seq(items.drop_last(), res).push(items.last().1.id@)
    } else {
        outdated_seq(items.drop_last(), res)
    }
}

/// An id is in the outdated sequence exactly when it is the id of an
/// outdated item.
proof fn lemma_outdated_seq(items: Seq<(Seq<char>, Resource)>, res: Resources, id: Seq<char>)
    ensures
        outdated_seq(items, res).contains(id) <==> exists|i: int| 0 <= i < items.len()
            && #[trigger] items[i].1.id@ == id && resource_outdated(items[i].1, res),
    decreases items.len(),
{
    if items.len() > 0 {
        let p = items.drop_last();
        lemma_outdated_seq(p, res, id);
        let s = outdated_seq(p, res);
        let last = items.last().1;
        let whole = outdated_seq(items, res);
        if resource_outdated(last, res) {
            assert(whole == s.push(last.id@));
        } else {
            assert(whole == s);
        }
        if whole.contains(id) {
            let j = choose|j: int| 0 <= j < whole.len() && whole[j] == id;
            if j < s.len() {
                assert(whole[j] == s[j]);
                assert(s.contains(id));
                let i = choose|i: int| 0 <= i < p.len() && #[trigger] p[i].1.id@ == id && resource_outdated(p[i].1, res);
                assert(items[i] == p[i]);
                assert(items[i].1.id@ == id && resource_outdated(items[i].1, res));
            } else {
                let n = items.len() - 1;
                assert(items[n].1 == last);
                assert(items[n].1.id@ == id && resource_outdated(items[n].1, res));
            }
        }
        if exists|i: int| 0 <= i < items.len() && #[trigger] items[i].1.id@ == id && resource_outdated(items[i].1, res) {
            let i = choose|i: int| 0 <= i < items.len() && #[trigger] items[i].1.id@ == id && resource_outdated(items[i].1, res);
            if i < items.len() - 1 {
                assert(p[i] == items[i]);
                assert(p[i].1.id@ == id && resource_outdated(p[i].1, res));
                assert(s.contains(id));
                let j = choose|j: int| 0 <= j < s.len() && s[j] == id;
                assert(whole[j] == s[j]);
                assert(whole.contains(id));
            } else {
                assert(items[i].1 == last);
                assert(whole[whole.len() - 1] == id);
                assert(whole.contains(id));
            }
        }
    }
}

/// The ids of the generated resources whose records are outdated, in order.
pub fn outdated_ids(resources: &Resources) -> (r: Vec<String>)
    requires
        all_deps_valid(resources.resources@),
    ensures
        r@.map_values(|s: String| s@) == outdated_seq(resources.resources.items(), *resources),
{
    let ghost items = resources.resources.items();
    let n = resources.resources.len();
    let mut r: Vec<String> = Vec::new();
    let mut i: usize = 0;
    assert(items.take(0) =~= Seq::<(Seq<char>, Resource)>::empty());
    assert(r@.map_values(|s: String| s@) =~= Seq::<Seq<char>>::empty());
    while i < n
        invariant
            i <= n == items.len(),
            items == resources.resources.items(),
            keys_distinct(items),
            all_deps_valid(resources.resources@),
            r@.map_values(|s: String| s@) == outdated_seq(items.take(i as int), *resources),
        decreases n - i,
    {
        let x = resources.resources.value_at(i);
        proof {
            assert(items.take(i + 1).drop_last() =~= items.take(i as int));
            crate::strmap::lemma_map_of_index(items, i as int);
            assert(resources.resources@.dom().contains(items[i as int].0));
        }
        let is_out = match &x.resource_provider {
            ResourceProvider::Generated(d) => d.is_outdated(resources),
            _ => false,
        };
        if is_out {
            r.push(x.id.clone());
            assert(r@.map_values(|s: String| s@) =~= outdated_seq(items.take(i as int), *resources).push(x.id@));
        }
        i = i + 1;
    }
    assert(items.take(n as int) =~= items);
    r
}

/// A submap of a map whose generated records are valid has valid records too.
proof fn lemma_valid_submap(a: Map<Seq<char>, Resource>, b: Map<Seq<char>, Resource>)
    requires
        a.submap_of(b),
        all_deps_valid(b),
    ensures
        all_deps_valid(a),
{
    assert forall|k: Seq<char>| #[trigger] a.dom().contains(k) implies (a[k].resource_provider matches ResourceProvider::Generated(d)
        ==> deps_valid(d@)) by {
        lemma_submap_get(a, b, k);
    }
}

/// The keys of the generated resources whose records are outdated against
/// `res`.
pub open spec fn outdated_keys(res: Resources) -> Set<Seq<char>> {
    Set::new(|k: Seq<char>| res.resources@.dom().contains(k) && resource_outdated(res.resources@[k], res))
}

/// A resource that is outdated against what is left of an inventory after
/// removals was outdated against the whole inventory, or was generated from
/// a resource that was removed.
proof fn lemma_outdated_after_removals(k: Seq<char>, r: Resources, o: Resources)
    requires
        keys_distinct(r.resources.items()),
        keys_distinct(o.resources.items()),
        ids_match(r.resources@),
        ids_match(o.resources@),
        r.resources@.submap_of(o.resources@),
        r.resources@.dom().contains(k),
        resource_outdated(r.resources@[k], r),
    ensures
        o.resources@.dom().contains(k),
        o.resources@[k] == r.resources@[k],
        resource_outdated(o.resources@[k], o) || exists|j: Seq<char>| o.resources@.dom().contains(j)
            && !r.resources@.dom().contains(j) && #[trigger] depends_on_id(o.resources@[k], j),
{
    lemma_submap_get(r.resources@, o.resources@, k);
    let x = r.resources@[k];
    let rm = r.resources@;
    let om = o.resources@;
    if let ResourceProvider::Generated(d) = x.resource_provider {
        let dm = d@.map();
        if !resource_outdated(x, o) {
            if let DependencyType::Glob(n) = d@.dep_type {
                let f = dep_func_named(n.0@)->Some_0;
                let ri = r.resources.items();
                let oi = o.resources.items();
                if glob_changed(f, dm, ri) {
                    let i = choose|i: int| 0 <= i < ri.len()
                        && dm.dom().contains(#[trigger] ri[i].1.id@) != f.accepts(ri[i].1.resource_data);
                    lemma_map_of_index(ri, i);
                    let key = ri[i].0;
                    assert(ri[i].1.id@ == key);
                    lemma_submap_get(rm, om, key);
                    let idx = choose|idx: int| 0 <= idx < oi.len() && oi[idx].0 == key;
                    lemma_map_of_index(oi, idx);
                    assert(oi[idx].1 == ri[i].1);
                    assert(glob_changed(f, dm, oi));
                }
            }
            assert(deps_outdated(dm, rm));
            let j = choose|j: Seq<char>| #[trigger] dm.dom().contains(j)
                && (!rm.dom().contains(j) || rm[j].content_hash@ != dm[j]);
            assert(!deps_outdated(dm, om));
            assert(om.dom().contains(j) && om[j].content_hash@ == dm[j]);
            if rm.dom().contains(j) {
                lemma_submap_get(rm, om, j);
            }
            assert(depends_on_id(om[k], j));
        }
    }
}

impl Resources {
    /// Removes outdated generated resources, with everything generated from
    /// them, until no generated resource is outdated. What stays is unchanged;
    /// what goes was outdated or was generated from something that went; when
    /// nothing was outdated, nothing is removed.
    pub fn remove_outdated(&mut self)
        requires
            ids_match(old(self).resources@),
            all_deps_valid(old(self).resources@),
        ensures
            ids_match(final(self).resources@),
            all_deps_valid(final(self).resources@),
            final(self).resources@.submap_of(old(self).resources@),
            forall|k: Seq<char>| #[trigger] final(self).resources@.dom().contains(k)
                ==> !resource_outdated(final(self).resources@[k], *final(self)),
            (forall|k: Seq<char>| #[trigger] old(self).resources@.dom().contains(k)
                ==> !resource_outdated(old(self).resources@[k], *old(self)))
                ==> final(self).resources@ == old(self).resources@,
            removed_through_chain(old(self).resources@, final(self).resources@, outdated_keys(*old(self))),
    {
        let ghost m0 = self.resources@;
        let _ = self.resources.len();
        loop
            invariant
                keys_distinct(old(self).resources.items()),
                ids_match(old(self).resources@),
                removed_through_chain(m0, self.resources@, outdated_keys(*old(self))),
                ids_match(self.resources@),
                all_deps_valid(self.resources@),
                self.resources@.submap_of(m0),
                m0 == old(self).resources@,
                (forall|k: Seq<char>| #[trigger] m0.dom().contains(k) ==> !resource_outdated(m0[k], *old(self)))
                    ==> self.resources@ == m0 && self.resources.items() == old(self).resources.items(),
            ensures
                removed_through_chain(m0, self.resources@, outdated_keys(*old(self))),
                ids_match(self.resources@),
                all_deps_valid(self.resources@),
                self.resources@.submap_of(m0),
                forall|k: Seq<char>| #[trigger] self.resources@.dom().contains(k)
                    ==> !resource_outdated(self.resources@[k], *self),
                (forall|k: Seq<char>| #[trigger] m0.dom().contains(k) ==> !resource_outdated(m0[k], *old(self)))
                    ==> self.resources@ == m0,
            decreases self.resources.items().len(),
        {
            let ids = outdated_ids(self);
            let _ = self.resources.len();
            let ghost round = *self;
            if ids.len() == 0 {
                proof {
                    assert forall|k: Seq<char>| #[trigger] self.resources@.dom().contains(k)
                        implies !resource_outdated(self.resources@[k], *self) by {
                        let items = self.resources.items();
                        let idx = choose|idx: int| 0 <= idx < items.len() && items[idx].0 == k;
                        crate::strmap::lemma_map_of_index(items, idx);
                        lemma_outdated_seq(items, *self, k);
                        if resource_outdated(self.resources@[k], *self) {
                            assert(items[idx].1.id@ == k);
                            assert(ids@.map_values(|s: String| s@).len() == 0);
                            assert(outdated_seq(items, *self).contains(k));
                        }
                    }
                }
                break;
            }
            let ghost start_len = self.resources.items().len();
            proof {
                let items = self.resources.items();
                let id0 = ids@[0]@;
                assert(ids@.map_values(|s: String| s@)[0] == id0);
                lemma_outdated_seq(items, *self, id0);
                let i = choose|i: int| 0 <= i < items.len() && #[trigger] items[i].1.id@ == id0
                    && resource_outdated(items[i].1, *self);
                crate::strmap::lemma_map_of_index(items, i);
                assert(self.resources@.dom().contains(items[i].0));
                assert(self.resources@[items[i].0].id@ == items[i].0);
                // Something was outdated, so the old map had an outdated entry too.
                if forall|k: Seq<char>| #[trigger] m0.dom().contains(k) ==> !resource_outdated(m0[k], *old(self)) {
                    assert(m0.dom().contains(items[i].0));
                    assert(*self == *old(self)) by {
                        assert(self.resources.items() == old(self).resources.items());
                    }
                }
            }
            let mut j: usize = 0;
            while j < ids.len()
                invariant
                    keys_distinct(old(self).resources.items()),
                    ids_match(old(self).resources@),
                    keys_distinct(round.resources.items()),
                    ids_match(round.resources@),
                    round.resources@.submap_of(m0),
                    self.resources@.submap_of(round.resources@),
                    ids@.map_values(|s: String| s@) == outdated_seq(round.resources.items(), round),
                    removed_through_chain(m0, self.resources@, outdated_keys(*old(self))),
                    ids_match(self.resources@),
                    all_deps_valid(self.resources@),
                    self.resources@.submap_of(m0),
                    m0 == old(self).resources@,
                    j <= ids@.len(),
                    ids@.len() > 0,
                    j > 0 ==> self.resources.items().len() < start_len,
                    j == 0 ==> self.resources.items().len() == start_len,
                    j == 0 ==> self.resources@.dom().contains(ids@[0]@),
                    !(forall|k: Seq<char>| #[trigger] m0.dom().contains(k) ==> !resource_outdated(m0[k], *old(self))),
                decreases ids@.len() - j,
            {
                let ghost before = self.resources@;
                let _ = self.remove_resource(ids[j].as_str());
                proof {
                    let id = ids@[j as int]@;
                    assert forall|k: Seq<char>| before.dom().contains(k) && !self.resources@.dom().contains(k)
                        && #[trigger] set![id].contains(k)
                        implies outdated_keys(*old(self)).contains(k) || exists|x: Seq<char>| m0.dom().contains(x)
                            && !before.dom().contains(x) && #[trigger] depends_on_id(m0[k], x) by {
                        assert(k == id);
                        let items = round.resources.items();
                        assert(ids@.map_values(|s: String| s@)[j as int] == id);
                        assert(outdated_seq(items, round).contains(id));
                        lemma_outdated_seq(items, round, id);
                        let i = choose|i: int| 0 <= i < items.len() && #[trigger] items[i].1.id@ == id
                            && resource_outdated(items[i].1, round);
                        lemma_map_of_index(items, i);
                        assert(items[i].0 == id);
                        lemma_submap_get(before, round.resources@, k);
                        lemma_outdated_after_removals(k, round, *old(self));
                        if !outdated_keys(*old(self)).contains(k) {
                            let x = choose|x: Seq<char>| m0.dom().contains(x) && !round.resources@.dom().contains(x)
                                && #[trigger] depends_on_id(m0[k], x);
                            if before.dom().contains(x) {
                                lemma_submap_get(before, round.resources@, x);
                            }
                        }
                    }
                    lemma_chain_compose(m0, before, self.resources@, outdated_keys(*old(self)), set![id]);
                    assert forall|k: Seq<char>| #[trigger] self.resources@.dom().contains(k)
                        implies m0.dom().contains(k) && self.resources@[k] == m0[k] by {
                        lemma_submap_get(self.resources@, before, k);
                        lemma_submap_get(before, m0, k);
                    }
                    assert(self.resources@.submap_of(m0));
                    lemma_valid_submap(self.resources@, before);
                }
                j = j + 1;
            }
        }
    }

}

/// A resource that `f` accepts is among the dependencies `f` finds.
pub proof fn lemma_glob_map_contains(f: DepFunc, items: Seq<(Seq<char>, Resource)>, i: int)
    requires
        0 <= i < items.len(),
        f.accepts(items[i].1.resource_data),
    ensures
        glob_map(f, items).dom().contains(items[i].1.id@),
    decreases items.len(),
{
    if i < items.len() - 1 {
        lemma_glob_map_contains(f, items.drop_last(), i);
        assert(items.drop_last()[i] == items[i]);
    }
}

/// The first site data file, in order, with the given file name.
pub open spec fn first_config(items: Seq<(Seq<char>, Resource)>, filename: Seq<char>) -> Option<Resource>
    decreases items.len(),
{
    if items.len() == 0 {
        None
    } else if items[0].1.resource_data matches ResourceData::Sitedata(c) && c.filename@ == filename {
        Some(items[0].1)
    } else {
        first_config(items.skip(1), filename)
    }
}

/// The path, under `root`, of the first site data file named `filename`.
pub fn find_config_res(root: &str, resources: &Resources, filename: &str) -> (r: Option<String>)
    ensures
        match first_config(resources.resources.items(), filename@) {
            Some(x) => r matches Some(p) && p@ == path_join_spec(root@, x.path@),
            None => r is None,
        },
{
    let ghost items = resources.resources.items();
    let n = resources.resources.len();
    let mut i: usize = 0;
    assert(items.skip(0) =~= items);
    while i < n
        invariant
            i <= n == items.len(),
            items == resources.resources.items(),
            first_config(items, filename@) == first_config(items.skip(i as int), filename@),
        decreases n - i,
    {
        let x = resources.resources.value_at(i);
        proof {
            assert(items.skip(i as int)[0] == items[i as int]);
            assert(items.skip(i as int).skip(1) =~= items.skip(i + 1));
        }
        match &x.resource_data {
            ResourceData::Sitedata(c) => {
                if crate::text::str_eq(c.filename.as_str(), filename) {
                    return Some(path_join(root, x.path.as_str()));
                }
            },
            _ => {},
        }
        i = i + 1;
    }
    proof {
        assert(items.skip(n as int) =~= Seq::<(Seq<char>, Resource)>::empty());
    }
    None
}

/// The path, under `root`, of the category configuration `categories.json`.
pub fn find_categories_config_res(root: &str, resources: &Resources) -> (r: Option<String>)
    ensures
        match first_config(resources.resources.items(), "categories.json"@) {
            Some(x) => r matches Some(p) && p@ == path_join_spec(root@, x.path@),
            None => r is None,
        },
{
    find_config_res(root, resources, "categories.json")
}

/// The path, under `root`, of the print configuration `print.json`.
pub fn find_print_config_res(root: &str, resources: &Resources) -> (r: Option<String>)
    ensures
        match first_config(resources.resources.items(), "print.json"@) {
            Some(x) => r matches Some(p) && p@ == path_join_spec(root@, x.path@),
            None => r is None,
        },
{
    find_config_res(root, resources, "print.json")
}

/// A generated data resource: recorded under `id` at `path`, named `name`,
/// depending on every resource that the registered function `func` accepts,
/// and identified by the digest of those dependencies. Some resource must be
/// accepted, so that there is something to digest.
pub fn generated_data_resource(resources: &Resources, func: &DependencyFuncName, name: &str, id: &str, path: &str)
    -> (r: Resource)
    requires
        dep_func_named(func.0@) is Some,
        exists|i: int| 0 <= i < resources.resources.items().len()
            && dep_func_named(func.0@)->Some_0.accepts(#[trigger] resources.resources.items()[i].1.resource_data),
    ensures
        r.id@ == id@,
        r.path@ == path@,
        r.resource_data matches ResourceData::GeneratedData(g) && g.name@ == name@,
        r.resource_provider matches ResourceProvider::Generated(d) && d@.dep_type == DependencyType::Glob(*func)
            && d@.map() == glob_map(dep_func_named(func.0@)->Some_0, resources.resources.items())
            && r.content_hash@ == crate::digest::lower_hex(crate::digest::sha256(dep_bytes(d@.entries))),
{
    let deps = <Dependencies as DependencyManger>::new_glob(func, resources);
    proof {
        let items = resources.resources.items();
        let f = dep_func_named(func.0@)->Some_0;
        let i = choose|i: int| 0 <= i < items.len() && f.accepts(#[trigger] items[i].1.resource_data);
        lemma_glob_map_contains(f, items, i);
        if deps@.entries.len() == 0 {
            assert(!crate::strmap::has_key(deps@.entries, items[i].1.id@));
        }
    }
    let hash = deps.hash_deps();
    let data = ResourceData::GeneratedData(GeneratedDataDesc { name: name.to_string() });
    Resource::new(path, data, id, hash.as_str(), ResourceProvider::Generated(deps))
}

/// After broken dependency records are cleaned out, every record that stays
/// can be evaluated, which is what removing outdated content asks for.
pub proof fn law_cleaned_records_are_valid(m: Map<Seq<char>, Resource>)
    ensures
        all_deps_valid(Map::new(
            |k: Seq<char>| m.dom().contains(k) && crate::manager::cleanup::dependency_ok(m[k]),
            |k: Seq<char>| m[k],
        )),
{
}

} // verus!

//! Cleaning the resource inventory: dropping broken entries, finding stale
//! files and removing whole kinds of resources.
use vstd::prelude::*;
use crate::strmap::{keys_distinct, lemma_map_of_index};
use crate::datamodel::datamodel::{Resource, Resources, ResourceData, ResourceProvider, ids_match};
use crate::manager::cli::CleanTargets;
use crate::manager::dependency::{DependencyManger, lemma_submap_get, removed_through_chain, lemma_chain_compose};
use crate::manager::generate::deps_valid;

verus! {

/// A resource whose record cannot be evaluated is broken; others are fine.
pub open spec fn dependency_ok(r: Resource) -> bool {
    r.resource_provider matches ResourceProvider::Generated(d) ==> deps_valid(d@)
}

/// Whether `id` is one of `ids`.
pub open spec fn listed(ids: Seq<String>, id: Seq<char>) -> bool {
    exists|i: int| 0 <= i < ids.len() && ids[i]@ == id
}

/// The map without the entries whose keys are listed.
pub open spec fn without(m: Map<Seq<char>, Resource>, ids: Seq<String>) -> Map<Seq<char>, Resource> {
    Map::new(|k: Seq<char>| m.dom().contains(k) && !listed(ids, k), |k: Seq<char>| m[k])
}

/// Drops the entries filed under the listed ids; every other entry stays as
/// it was.
pub fn drop_ids(resources: &mut Resources, ids: &Vec<String>)
    ensures
        final(resources).resources@ == without(old(resources).resources@, ids@),
{
    let ghost m0 = resources.resources@;
    let mut j: usize = 0;
    assert(without(m0, ids@.take(0)) =~= m0);
    while j < ids.len()
        invariant
            j <= ids@.len(),
            resources.resources@ == without(m0, ids@.take(j as int)),
        decreases ids@.len() - j,
    {
        let _ = resources.resources.remove(ids[j].as_str());
        proof {
            let t = ids@.take(j + 1);
            assert forall|k: Seq<char>| listed(t, k) <==> listed(ids@.take(j as int), k) || k == ids@[j as int]@ by {
                if listed(t, k) {
                    let i = choose|i: int| 0 <= i < t.len() && t[i]@ == k;
                    if i < j { assert(ids@.take(j as int)[i] == t[i]); }
                }
                if listed(ids@.take(j as int), k) {
                    let i = choose|i: int| 0 <= i < j && ids@.take(j as int)[i]@ == k;
                    assert(t[i] == ids@.take(j as int)[i]);
                }
                if k == ids@[j as int]@ { assert(t[j as int] == ids@[j as int]); }
            }
            assert(resources.resources@ =~= without(m0, t));
        }
        j = j + 1;
    }
    assert(ids@.take(ids@.len() as int) =~= ids@);
}

/// Drops the resources whose files are missing, given their ids.
pub fn clean_broken_resources(resources: &mut Resources, missing: &Vec<String>)
    requires
        ids_match(old(resources).resources@),
    ensures
        ids_match(final(resources).resources@),
        final(resources).resources@ == without(old(resources).resources@, missing@),
{
    drop_ids(resources, missing);
}

/// The ids of the resources that `keep` rejects, in order.
pub open spec fn rejected_ids(items: Seq<(Seq<char>, Resource)>, keep: spec_fn(Resource) -> bool) -> Seq<Seq<char>>
    decreases items.len(),
{
    if items.len() == 0 {
        Seq::empty()
    } else if !keep(items.last().1) {
        rejected_ids(items.drop_last(), keep).push(items.last().0)
    } else {
        rejected_ids(items.drop_last(), keep)
    }
}

/// Drops every generated resource whose dependency record cannot be
/// evaluated; the others stay as they were.
pub fn clean_broken_dependencies(resources: &mut Resources)
    requires
        ids_match(old(resources).resources@),
    ensures
        ids_match(final(resources).resources@),
        final(resources).resources@ == Map::new(
            |k: Seq<char>| old(resources).resources@.dom().contains(k) && dependency_ok(old(resources).resources@[k]),
            |k: Seq<char>| old(resources).resources@[k],
        ),
{
    let n = resources.resources.len();
    let ghost items = resources.resources.items();
    let ghost m0 = resources.resources@;
    let mut broken: Vec<String> = Vec::new();
    let mut i: usize = 0;
    while i < n
        invariant
            i <= n == items.len(),
            items == resources.resources.items(),
            keys_distinct(items),
            m0 == resources.resources@,
            forall|k: Seq<char>| listed(broken@, k) <==> exists|j: int| 0 <= j < i && #[trigger] items[j].0 == k
                && !dependency_ok(items[j].1),
        decreases n - i,
    {
        let x = resources.resources.value_at(i);
        let ok = match &x.resource_provider {
            ResourceProvider::Generated(d) => d.is_valid(),
            _ => true,
        };
        let ghost before = broken@;
        if !ok {
            broken.push(resources.resources.key_at(i).clone());
        }
        proof {
            assert forall|k: Seq<char>| listed(broken@, k) <==> exists|j: int| 0 <= j < i + 1 && #[trigger] items[j].0 == k
                && !dependency_ok(items[j].1) by {
                if listed(broken@, k) {
                    let b = choose|b: int| 0 <= b < broken@.len() && broken@[b]@ == k;
                    if b < before.len() {
                        assert(broken@[b] == before[b]);
                        assert(listed(before, k));
                    } else {
                        assert(items[i as int].0 == k);
                    }
                }
                if exists|j: int| 0 <= j < i + 1 && #[trigger] items[j].0 == k && !dependency_ok(items[j].1) {
                    let j = choose|j: int| 0 <= j < i + 1 && #[trigger] items[j].0 == k && !dependency_ok(items[j].1);
                    if j < i {
                        assert(listed(before, k));
                        let b = choose|b: int| 0 <= b < before.len() && before[b]@ == k;
                        assert(broken@[b] == before[b]);
                    } else {
                        assert(broken@[broken@.len() - 1]@ == k);
                    }
                }
            }
        }
        i = i + 1;
    }
    drop_ids(resources, &broken);
    proof {
        assert forall|k: Seq<char>| m0.dom().contains(k) implies (listed(broken@, k) <==> !dependency_ok(m0[k])) by {
            let j = choose|j: int| 0 <= j < items.len() && items[j].0 == k;
            lemma_map_of_index(items, j);
            if listed(broken@, k) {
                let j2 = choose|j2: int| 0 <= j2 < n && #[trigger] items[j2].0 == k && !dependency_ok(items[j2].1);
                assert(j2 == j);
            }
        }
        assert(resources.resources@ =~= Map::new(
            |k: Seq<char>| m0.dom().contains(k) && dependency_ok(m0[k]),
            |k: Seq<char>| m0[k],
        ));
    }
}

/// Whether a clean of `target` removes resource `r` by itself.
pub open spec fn clean_selects(target: CleanTargets, r: Resource) -> bool {
    match target {
        CleanTargets::Thumbnails => r.resource_data is Thumbnail,
        CleanTargets::Data => r.resource_data is Sitedata,
        CleanTargets::All => true,
    }
}

/// The ids of the resources a clean of `target` selects, in order.
pub fn selected_ids(resources: &Resources, target: CleanTargets) -> (r: Vec<String>)
    ensures
        r@.len() <= resources.resources.items().len(),
        forall|k: Seq<char>| listed(r@, k) <==> resources.resources@.dom().contains(k)
            && clean_selects(target, resources.resources@[k]),
{
    let n = resources.resources.len();
    let ghost items = resources.resources.items();
    let mut r: Vec<String> = Vec::new();
    let mut i: usize = 0;
    while i < n
        invariant
            i <= n == items.len(),
            items == resources.resources.items(),
            keys_distinct(items),
            r@.len() <= i,
            forall|k: Seq<char>| listed(r@, k) <==> exists|j: int| 0 <= j < i && #[trigger] items[j].0 == k
                && clean_selects(target, items[j].1),
        decreases n - i,
    {
        let x = resources.resources.value_at(i);
        let sel = match target {
            CleanTargets::Thumbnails => match &x.resource_data {
                ResourceData::Thumbnail(_) => true,
                _ => false,
            },
            CleanTargets::Data => match &x.resource_data {
                ResourceData::Sitedata(_) => true,
                _ => false,
            },
            CleanTargets::All => true,
        };
        let ghost before = r@;
        if sel {
            r.push(resources.resources.key_at(i).clone());
        }
        proof {
            assert forall|k: Seq<char>| listed(r@, k) <==> exists|j: int| 0 <= j < i + 1 && #[trigger] items[j].0 == k
                && clean_selects(target, items[j].1) by {
                if listed(r@, k) {
                    let b = choose|b: int| 0 <= b < r@.len() && r@[b]@ == k;
                    if b < before.len() {
                        assert(r@[b] == before[b]);
                        assert(listed(before, k));
                    } else {
                        assert(items[i as int].0 == k);
                    }
                }
                if exists|j: int| 0 <= j < i + 1 && #[trigger] items[j].0 == k && clean_selects(target, items[j].1) {
                    let j = choose|j: int| 0 <= j < i + 1 && #[trigger] items[j].0 == k && clean_selects(target, items[j].1);
                    if j < i {
                        assert(listed(before, k));
                        let b = choose|b: int| 0 <= b < before.len() && before[b]@ == k;
                        assert(r@[b] == before[b]);
                    } else {
                        assert(r@[r@.len() - 1]@ == k);
                    }
                }
            }
        }
        i = i + 1;
    }
    proof {
        assert forall|k: Seq<char>| listed(r@, k) <==> resources.resources@.dom().contains(k)
            && clean_selects(target, resources.resources@[k]) by {
            if listed(r@, k) {
                let j = choose|j: int| 0 <= j < n && #[trigger] items[j].0 == k && clean_selects(target, items[j].1);
                lemma_map_of_index(items, j);
            }
            if resources.resources@.dom().contains(k) {
                let j = choose|j: int| 0 <= j < items.len() && items[j].0 == k;
                lemma_map_of_index(items, j);
            }
        }
    }
    r
}

/// The keys of the resources that a clean of `target` selects.
pub open spec fn selected_keys(m: Map<Seq<char>, Resource>, target: CleanTargets) -> Set<Seq<char>> {
    Set::new(|k: Seq<char>| m.dom().contains(k) && clean_selects(target, m[k]))
}

/// Removes every resource that a clean of `target` selects, with everything
/// generated from them. Nothing selected is left; what stays is unchanged;
/// what goes was selected or generated from something that went; when
/// nothing is selected, nothing is removed.
pub fn remove_targets(resources: &mut Resources, target: CleanTargets)
    requires
        ids_match(old(resources).resources@),
    ensures
        ids_match(final(resources).resources@),
        final(resources).resources@.submap_of(old(resources).resources@),
        forall|k: Seq<char>| #[trigger] final(resources).resources@.dom().contains(k)
            ==> !clean_selects(target, final(resources).resources@[k]),
        (forall|k: Seq<char>| #[trigger] old(resources).resources@.dom().contains(k)
            ==> !clean_selects(target, old(resources).resources@[k]))
            ==> final(resources).resources@ == old(resources).resources@,
        removed_through_chain(old(resources).resources@, final(resources).resources@,
            selected_keys(old(resources).resources@, target)),
{
    let ids = selected_ids(resources, target);
    let ghost m0 = resources.resources@;
    let mut j: usize = 0;
    while j < ids.len()
        invariant
            j <= ids@.len(),
            ids_match(resources.resources@),
            resources.resources@.submap_of(m0),
            m0 == old(resources).resources@,
            j == 0 ==> resources.resources@ == m0,
            forall|k: Seq<char>| listed(ids@, k) <==> m0.dom().contains(k) && clean_selects(target, m0[k]),
            forall|i: int| 0 <= i < j ==> !resources.resources@.dom().contains(#[trigger] ids@[i]@),
            removed_through_chain(m0, resources.resources@, selected_keys(m0, target)),
        decreases ids@.len() - j,
    {
        let ghost before = resources.resources@;
        let _ = resources.remove_resource(ids[j].as_str());
        proof {
            let id = ids@[j as int]@;
            assert forall|k: Seq<char>| before.dom().contains(k) && !resources.resources@.dom().contains(k)
                && #[trigger] set![id].contains(k)
                implies selected_keys(m0, target).contains(k) || exists|x: Seq<char>| m0.dom().contains(x)
                    && !before.dom().contains(x) && #[trigger] crate::datamodel::datamodel::depends_on_id(m0[k], x) by {
                assert(k == id);
                assert(listed(ids@, k));
            }
            lemma_chain_compose(m0, before, resources.resources@, selected_keys(m0, target), set![id]);
            assert forall|k: Seq<char>| #[trigger] resources.resources@.dom().contains(k)
                implies m0.dom().contains(k) && resources.resources@[k] == m0[k] by {
                lemma_submap_get(resources.resources@, before, k);
                lemma_submap_get(before, m0, k);
            }
            assert(resources.resources@.submap_of(m0));
            assert forall|i: int| 0 <= i < j + 1 implies !resources.resources@.dom().contains(#[trigger] ids@[i]@) by {
                if i < j {
                    assert(!before.dom().contains(ids@[i]@));
                }
            }
        }
        j = j + 1;
    }
    proof {
        assert forall|k: Seq<char>| #[trigger] resources.resources@.dom().contains(k)
            implies !clean_selects(target, resources.resources@[k]) by {
            lemma_submap_get(resources.resources@, m0, k);
            if clean_selects(target, m0[k]) {
                assert(listed(ids@, k));
                let i = choose|i: int| 0 <= i < ids@.len() && ids@[i]@ == k;
                assert(!resources.resources@.dom().contains(ids@[i]@));
            }
        }
        if forall|k: Seq<char>| #[trigger] m0.dom().contains(k) ==> !clean_selects(target, m0[k]) {
            if ids@.len() > 0 {
                assert(listed(ids@, ids@[0]@));
            }
            assert(resources.resources@ =~= m0);
        }
    }
}

/// Removes every thumbnail, with what was generated from one; what goes
/// is a thumbnail or was generated from something that went.
pub fn remove_thumbnails(resources: &mut Resources)
    requires
        ids_match(old(resources).resources@),
    ensures
        ids_match(final(resources).resources@),
        final(resources).resources@.submap_of(old(resources).resources@),
        forall|k: Seq<char>| #[trigger] final(resources).resources@.dom().contains(k)
            ==> !(final(resources).resources@[k].resource_data is Thumbnail),
        removed_through_chain(old(resources).resources@, final(resources).resources@,
            selected_keys(old(resources).resources@, CleanTargets::Thumbnails)),
        (forall|k: Seq<char>| #[trigger] old(resources).resources@.dom().contains(k)
            ==> !(old(resources).resources@[k].resource_data is Thumbnail))
            ==> final(resources).resources@ == old(resources).resources@,
{
    remove_targets(resources, CleanTargets::Thumbnails);
}

/// Removes every site data file and what was generated from it; what goes
/// is a site data file or was generated from something that went.
pub fn remove_data(resources: &mut Resources)
    requires
        ids_match(old(resources).resources@),
    ensures
        ids_match(final(resources).resources@),
        final(resources).resources@.submap_of(old(resources).resources@),
        forall|k: Seq<char>| #[trigger] final(resources).resources@.dom().contains(k)
            ==> !(final(resources).resources@[k].resource_data is Sitedata),
        removed_through_chain(old(resources).resources@, final(resources).resources@,
            selected_keys(old(resources).resources@, CleanTargets::Data)),
        (forall|k: Seq<char>| #[trigger] old(resources).resources@.dom().contains(k)
            ==> !(old(resources).resources@[k].resource_data is Sitedata))
            ==> final(resources).resources@ == old(resources).resources@,
{
    remove_targets(resources, CleanTargets::Data);
}

/// Removes every resource.
pub fn remove_all(resources: &mut Resources)
    requires
        ids_match(old(resources).resources@),
    ensures
        final(resources).resources@ == Map::<Seq<char>, Resource>::empty(),
{
    remove_targets(resources, CleanTargets::All);
    assert(resources.resources@ =~= Map::<Seq<char>, Resource>::empty());
}

/// Whether `path` is one of `paths`.
pub open spec fn path_listed(paths: Seq<String>, path: Seq<char>) -> bool {
    exists|i: int| 0 <= i < paths.len() && paths[i]@ == path
}

/// The files of a folder that no resource uses, in order.
pub fn stale_files(files: &Vec<String>, valid_paths: &Vec<String>) -> (r: Vec<String>)
    ensures
        r@.map_values(|s: String| s@) == files@.map_values(|s: String| s@).filter(
            |p: Seq<char>| !path_listed(valid_paths@, p)),
{
    let mut r: Vec<String> = Vec::new();
    let mut i: usize = 0;
    let ghost fs = files@.map_values(|s: String| s@);
    let ghost keep = |p: Seq<char>| !path_listed(valid_paths@, p);
    assert(fs.take(0).filter(keep) =~= Seq::<Seq<char>>::empty());
    assert(r@.map_values(|s: String| s@) =~= Seq::<Seq<char>>::empty());
    while i < files.len()
        invariant
            i <= files@.len(),
            fs == files@.map_values(|s: String| s@),
            keep == (|p: Seq<char>| !path_listed(valid_paths@, p)),
            r@.map_values(|s: String| s@) == fs.take(i as int).filter(keep),
        decreases files@.len() - i,
    {
        let f = &files[i];
        let mut found = false;
        let mut j: usize = 0;
        while j < valid_paths.len()
            invariant
                j <= valid_paths@.len(),
                found == exists|q: int| 0 <= q < j && valid_paths@[q]@ == f@,
            decreases valid_paths@.len() - j,
        {
            if crate::text::str_eq(valid_paths[j].as_str(), f.as_str()) {
                found = true;
            }
            j = j + 1;
        }
        proof {
            assert(fs.take(i + 1).drop_last() =~= fs.take(i as int));
            assert(fs.take(i + 1).last() == f@);
            fs.take(i as int).lemma_filter_push(f@, keep);
        }
        if !found {
            r.push(f.clone());
            assert(r@.map_values(|s: String| s@) =~= fs.take(i as int).filter(keep).push(f@));
        } else {
            assert(r@.map_values(|s: String| s@) =~= fs.take(i as int).filter(keep));
        }
        assert(fs.take(i + 1) =~= fs.take(i as int).push(f@));
        i = i + 1;
    }
    assert(fs.take(files@.len() as int) =~= fs);
    r
}

} // verus!

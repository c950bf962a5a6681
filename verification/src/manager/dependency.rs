//! Dependencies of generated resources: when they are outdated, which
//! resources depend on which, and removing a resource with all that depends
//! on it.
use vstd::prelude::*;
use crate::strmap::{StrMap, map_of, keys_distinct, deep_map, lemma_deep_items_map, lemma_map_of_index};
use crate::text::str_eq;
use vstd::utf8::encode_utf8;
use crate::datamodel::datamodel::{Dependencies, DependenciesView, DependencyType, DependencyFuncName, Resource, Resources, ResourceData, ResourceProvider, depends_on_id, ids_match};

verus! {

/// A registered dependency function, by the name it is registered under.
#[derive(Debug)]
pub enum DepFunc {
    Category,
    Templates,
    Print,
}

/// The name the category generator registers its dependency function under.
pub const CATEGORY_DEP_FUNC_NAME: &'static str = "category_dep_func";
/// The name the template renderer registers its dependency function under.
pub const TEMPLATES_DEP_FUNC_NAME: &'static str = "TERA_TEMPLATES_DEP";
/// The name the print compiler registers its dependency function under.
pub const PRINT_DEP_FUNC_NAME: &'static str = "print_dep_func";

/// The registered function of a name, if any.
pub open spec fn dep_func_named(name: Seq<char>) -> Option<DepFunc> {
    if name == CATEGORY_DEP_FUNC_NAME@ {
        Some(DepFunc::Category)
    } else if name == TEMPLATES_DEP_FUNC_NAME@ {
        Some(DepFunc::Templates)
    } else if name == PRINT_DEP_FUNC_NAME@ {
        Some(DepFunc::Print)
    } else {
        None
    }
}

/// The category generator depends on every image and on `categories.json`.
pub open spec fn category_accepts(d: ResourceData) -> bool {
    match d {
        ResourceData::Image(_) => true,
        ResourceData::Sitedata(c) => c.filename@ == "categories.json"@,
        _ => false,
    }
}

/// The templates depend on every image and thumbnail, and on the generated
/// categories and print offers.
pub open spec fn templates_accepts(d: ResourceData) -> bool {
    match d {
        ResourceData::Image(_) => true,
        ResourceData::Thumbnail(_) => true,
        ResourceData::GeneratedData(g) => g.name@ == "categories"@ || g.name@ == "print.json"@,
        _ => false,
    }
}

/// The print compiler depends on every image and on `print.json`.
pub open spec fn print_accepts(d: ResourceData) -> bool {
    match d {
        ResourceData::Image(_) => true,
        ResourceData::Sitedata(c) => c.filename@ == "print.json"@,
        _ => false,
    }
}

impl DepFunc {
    /// Whether the function accepts a resource with data `d`.
    pub open spec fn accepts(self, d: ResourceData) -> bool {
        match self {
            DepFunc::Category => category_accepts(d),
            DepFunc::Templates => templates_accepts(d),
            DepFunc::Print => print_accepts(d),
        }
    }

    /// Whether the function accepts `r`.
    pub fn apply(&self, r: &Resource) -> (b: bool)
        ensures
            b == self.accepts(r.resource_data),
    {
        match self {
            DepFunc::Category => category_dep_func(r),
            DepFunc::Templates => templates_dep_func(r),
            DepFunc::Print => print_dep_func(r),
        }
    }
}

/// Whether the category generator depends on `resources`.
pub fn category_dep_func(resources: &Resource) -> (b: bool)
    ensures
        b == category_accepts(resources.resource_data),
{
    match &resources.resource_data {
        ResourceData::Image(_) => true,
        ResourceData::Sitedata(data) => str_eq(data.filename.as_str(), "categories.json"),
        _ => false,
    }
}

/// Whether the templates depend on `resources`.
pub fn templates_dep_func(resources: &Resource) -> (b: bool)
    ensures
        b == templates_accepts(resources.resource_data),
{
    match &resources.resource_data {
        ResourceData::Image(_) => true,
        ResourceData::Thumbnail(_) => true,
        ResourceData::GeneratedData(data) => {
            str_eq(data.name.as_str(), "categories") || str_eq(data.name.as_str(), "print.json")
        },
        _ => false,
    }
}

/// Whether the print compiler depends on `resources`.
pub fn print_dep_func(resources: &Resource) -> (b: bool)
    ensures
        b == print_accepts(resources.resource_data),
{
    match &resources.resource_data {
        ResourceData::Image(_) => true,
        ResourceData::Sitedata(data) => str_eq(data.filename.as_str(), "print.json"),
        _ => false,
    }
}

/// The registered function of `name`, if any.
pub fn lookup_dep_func(name: &DependencyFuncName) -> (r: Option<DepFunc>)
    ensures
        r == dep_func_named(name.0@),
{
    if str_eq(name.0.as_str(), CATEGORY_DEP_FUNC_NAME) {
        Some(DepFunc::Category)
    } else if str_eq(name.0.as_str(), TEMPLATES_DEP_FUNC_NAME) {
        Some(DepFunc::Templates)
    } else if str_eq(name.0.as_str(), PRINT_DEP_FUNC_NAME) {
        Some(DepFunc::Print)
    } else {
        None
    }
}

/// The dependency functions with the names they are registered under.
pub fn register_deps() -> (r: Vec<(DependencyFuncName, DepFunc)>)
    ensures
        r@.len() == 3,
        r@[0].0.0@ == CATEGORY_DEP_FUNC_NAME@ && r@[0].1 == DepFunc::Category,
        r@[1].0.0@ == TEMPLATES_DEP_FUNC_NAME@ && r@[1].1 == DepFunc::Templates,
        r@[2].0.0@ == PRINT_DEP_FUNC_NAME@ && r@[2].1 == DepFunc::Print,
{
    let mut r: Vec<(DependencyFuncName, DepFunc)> = Vec::new();
    r.push((DependencyFuncName(CATEGORY_DEP_FUNC_NAME.to_string()), DepFunc::Category));
    r.push((DependencyFuncName(TEMPLATES_DEP_FUNC_NAME.to_string()), DepFunc::Templates));
    r.push((DependencyFuncName(PRINT_DEP_FUNC_NAME.to_string()), DepFunc::Print));
    r
}

} // verus!

verus! {

/// Some recorded dependency is no longer a resource, or its content changed.
pub open spec fn deps_outdated(deps: Map<Seq<char>, Seq<char>>, res: Map<Seq<char>, Resource>) -> bool {
    exists|k: Seq<char>| #[trigger] deps.dom().contains(k) && (!res.dom().contains(k) || res[k].content_hash@ != deps[k])
}

/// Some resource is recorded as a dependency but no longer accepted by `f`,
/// or accepted but not recorded.
pub open spec fn glob_changed(f: DepFunc, deps: Map<Seq<char>, Seq<char>>, items: Seq<(Seq<char>, Resource)>) -> bool {
    exists|i: int| 0 <= i < items.len() && deps.dom().contains(#[trigger] items[i].1.id@) != f.accepts(items[i].1.resource_data)
}

/// A dependency record is outdated against `res`. A glob record must name a
/// registered function.
pub open spec fn outdated(d: crate::datamodel::datamodel::DependenciesView, res: Resources) -> bool {
    match d.dep_type {
        DependencyType::Direct => deps_outdated(d.map(), res.resources@),
        DependencyType::Glob(n) => glob_changed(dep_func_named(n.0@)->Some_0, d.map(), res.resources.items())
            || deps_outdated(d.map(), res.resources@),
    }
}

/// Adding a resource as it is now to a direct record that is current keeps
/// the record current, and the record then depends on it.
pub proof fn law_added_current_dependency_keeps_record_current(
    before: crate::datamodel::datamodel::DependenciesView,
    after: crate::datamodel::datamodel::DependenciesView,
    r: Resource,
    res: Resources,
)
    requires
        before.dep_type is Direct,
        after.dep_type == before.dep_type,
        after.map() == before.map().insert(r.id@, r.content_hash@),
        !outdated(before, res),
        res.resources@.dom().contains(r.id@),
        res.resources@[r.id@].content_hash@ == r.content_hash@,
    ensures
        !outdated(after, res),
        after.map().dom().contains(r.id@),
{
    assert forall|k: Seq<char>| #[trigger] after.map().dom().contains(k) implies res.resources@.dom().contains(k)
        && res.resources@[k].content_hash@ == after.map()[k] by {
        if k != r.id@ {
            assert(before.map().dom().contains(k));
        }
    }
}

/// The dependencies that `f` finds among the resources, in order: id to
/// content hash.
pub open spec fn glob_map(f: DepFunc, items: Seq<(Seq<char>, Resource)>) -> Map<Seq<char>, Seq<char>>
    decreases items.len(),
{
    if items.len() == 0 {
        Map::empty()
    } else if f.accepts(items.last().1.resource_data) {
        glob_map(f, items.drop_last()).insert(items.last().1.id@, items.last().1.content_hash@)
    } else {
        glob_map(f, items.drop_last())
    }
}

/// Whether some recorded dependency is no longer a resource or has changed.
pub fn is_dep_outdated(resources: &Resources, dependencies: &StrMap<String>) -> (b: bool)
    ensures
        b == deps_outdated(deep_map(dependencies@), resources.resources@),
{
    let n = dependencies.len();
    proof { lemma_deep_items_map(*dependencies); }
    let ghost items = dependencies.items();
    let mut i: usize = 0;
    while i < n
        invariant
            i <= n == items.len(),
            items == dependencies.items(),
            keys_distinct(items),
            forall|j: int| 0 <= j < i ==> resources.resources@.dom().contains(#[trigger] items[j].0)
                && resources.resources@[items[j].0].content_hash@ == items[j].1@,
        decreases n - i,
    {
        let dep_name = dependencies.key_at(i);
        let dep_rev = dependencies.value_at(i);
        proof {
            lemma_map_of_index(items, i as int);
            lemma_deep_items_map(*dependencies);
            lemma_map_of_index(dependencies.deep_items(), i as int);
        }
        match resources.resources.get(dep_name.as_str()) {
            Some(dependency) => {
                if dependency.content_hash != *dep_rev {
                    assert(deep_map(dependencies@).dom().contains(items[i as int].0));
                    return true;
                }
            },
            None => {
                assert(deep_map(dependencies@).dom().contains(items[i as int].0));
                return true;
            },
        }
        i = i + 1;
    }
    proof {
        assert forall|k: Seq<char>| #[trigger] deep_map(dependencies@).dom().contains(k) implies
            resources.resources@.dom().contains(k) && resources.resources@[k].content_hash@ == deep_map(dependencies@)[k] by {
            let j = choose|j: int| 0 <= j < items.len() && items[j].0 == k;
            lemma_map_of_index(items, j);
        }
    }
    false
}

/// The ids of the resources generated from `resource`, in order.
pub open spec fn rev_deps(items: Seq<(Seq<char>, Resource)>, id: Seq<char>) -> Seq<Seq<char>>
    decreases items.len(),
{
    if items.len() == 0 {
        Seq::empty()
    } else if depends_on_id(items.last().1, id) {
        rev_deps(items.drop_last(), id).push(items.last().1.id@)
    } else {
        rev_deps(items.drop_last(), id)
    }
}

/// Each id that `rev_deps` lists is that of a resource generated from `id`.
proof fn lemma_rev_deps_member(items: Seq<(Seq<char>, Resource)>, id: Seq<char>, j: int)
    requires
        0 <= j < rev_deps(items, id).len(),
    ensures
        exists|idx: int| 0 <= idx < items.len() && #[trigger] items[idx].1.id@ == rev_deps(items, id)[j]
            && depends_on_id(items[idx].1, id),
    decreases items.len(),
{
    let p = items.drop_last();
    if j < rev_deps(p, id).len() {
        lemma_rev_deps_member(p, id, j);
        let idx = choose|idx: int| 0 <= idx < p.len() && #[trigger] p[idx].1.id@ == rev_deps(p, id)[j]
            && depends_on_id(p[idx].1, id);
        assert(items[idx] == p[idx]);
    } else {
        assert(items[items.len() - 1] == items.last());
    }
}

/// The ids of the resources that were generated from `resource`.
pub fn reverse_dependencies(resource: &Resource, resources: &Resources) -> (r: Vec<String>)
    ensures
        r@.map_values(|s: String| s@) == rev_deps(resources.resources.items(), resource.id@),
        forall|i: int| 0 <= i < resources.resources.items().len()
            && depends_on_id(#[trigger] resources.resources.items()[i].1, resource.id@)
            ==> exists|j: int| 0 <= j < r@.len() && r@[j]@ == resources.resources.items()[i].1.id@,
{
    let ghost items = resources.resources.items();
    let n = resources.resources.len();
    let mut r: Vec<String> = Vec::new();
    let mut i: usize = 0;
    assert(items.take(0) =~= Seq::<(Seq<char>, Resource)>::empty());
    assert(r@.map_values(|s: String| s@) =~= Seq::<Seq<char>>::empty());
    while i < n
        invariant
            i <= n == items.len(),
            items == resources.resources.items(),
            r@.map_values(|s: String| s@) == rev_deps(items.take(i as int), resource.id@),
            forall|k: int| 0 <= k < i && depends_on_id(#[trigger] items[k].1, resource.id@)
                ==> exists|j: int| 0 <= j < r@.len() && r@[j]@ == items[k].1.id@,
        decreases n - i,
    {
        let x = resources.resources.value_at(i);
        proof { assert(items.take(i + 1).drop_last() =~= items.take(i as int)); }
        let generated_from = match &x.resource_provider {
            ResourceProvider::Generated(y) => y.depends_on(resource),
            _ => false,
        };
        let ghost old_r = r@;
        if generated_from {
            r.push(x.id.clone());
            proof {
                assert(r@.map_values(|s: String| s@) =~= rev_deps(items.take(i as int), resource.id@).push(x.id@));
                assert(r@[r@.len() - 1]@ == items[i as int].1.id@);
            }
        }
        proof {
            assert forall|k: int| 0 <= k < i + 1 && depends_on_id(#[trigger] items[k].1, resource.id@)
                implies exists|j: int| 0 <= j < r@.len() && r@[j]@ == items[k].1.id@ by {
                if k < i {
                    let j = choose|j: int| 0 <= j < old_r.len() && old_r[j]@ == items[k].1.id@;
                    assert(r@[j] == old_r[j]);
                } else {
                    assert(r@[r@.len() - 1]@ == items[i as int].1.id@);
                }
            }
        }
        i = i + 1;
    }
    assert(items.take(n as int) =~= items);
    r
}

} // verus!

verus! {

/// A key of a submap is a key of the larger map, with the same value.
pub proof fn lemma_submap_get<K, V>(a: Map<K, V>, b: Map<K, V>, k: K)
    requires
        a.submap_of(b),
        a.dom().contains(k),
    ensures
        b.dom().contains(k),
        a[k] == b[k],
{
    assert(a.dom().contains(k) ==> b.dom().contains(k) && a[k] == b[k]);
}

/// With distinct ids, `f` finds exactly the resources it accepts, each with
/// its content hash.
proof fn lemma_glob_map_exact(f: DepFunc, items: Seq<(Seq<char>, Resource)>)
    requires
        forall|i: int, j: int| 0 <= i < items.len() && 0 <= j < items.len() && i != j
            ==> (#[trigger] items[i]).1.id@ != (#[trigger] items[j]).1.id@,
    ensures
        forall|i: int| 0 <= i < items.len() ==> (glob_map(f, items).dom().contains(#[trigger] items[i].1.id@)
            <==> f.accepts(items[i].1.resource_data)),
        forall|i: int| 0 <= i < items.len() && f.accepts(items[i].1.resource_data)
            ==> glob_map(f, items)[#[trigger] items[i].1.id@] == items[i].1.content_hash@,
        forall|k: Seq<char>| #[trigger] glob_map(f, items).dom().contains(k) ==> exists|i: int| 0 <= i < items.len()
            && items[i].1.id@ == k && f.accepts(items[i].1.resource_data),
    decreases items.len(),
{
    if items.len() > 0 {
        let p = items.drop_last();
        assert forall|i: int, j: int| 0 <= i < p.len() && 0 <= j < p.len() && i != j
            implies (#[trigger] p[i]).1.id@ != (#[trigger] p[j]).1.id@ by {
            assert(p[i] == items[i] && p[j] == items[j]);
        }
        lemma_glob_map_exact(f, p);
        let last = items.last();
        let n = items.len() - 1;
        assert(items[n] == last);
        assert(glob_map(f, items) == if f.accepts(last.1.resource_data) {
            glob_map(f, p).insert(last.1.id@, last.1.content_hash@)
        } else {
            glob_map(f, p)
        });
        assert forall|i: int| 0 <= i < items.len() implies (glob_map(f, items).dom().contains(#[trigger] items[i].1.id@)
            <==> f.accepts(items[i].1.resource_data)) by {
            if i < n {
                assert(p[i] == items[i]);
                assert(items[i].1.id@ != items[n].1.id@);
            }
        }
        assert forall|i: int| 0 <= i < items.len() && f.accepts(items[i].1.resource_data)
            implies glob_map(f, items)[#[trigger] items[i].1.id@] == items[i].1.content_hash@ by {
            if i < n {
                assert(p[i] == items[i]);
                assert(items[i].1.id@ != items[n].1.id@);
            }
        }
        assert forall|k: Seq<char>| #[trigger] glob_map(f, items).dom().contains(k) implies exists|i: int| 0 <= i < items.len()
            && items[i].1.id@ == k && f.accepts(items[i].1.resource_data) by {
            if k == last.1.id@ && f.accepts(last.1.resource_data) {
                assert(items[n].1.id@ == k);
            } else {
                assert(glob_map(f, p).dom().contains(k));
                let i = choose|i: int| 0 <= i < p.len() && p[i].1.id@ == k && f.accepts(p[i].1.resource_data);
                assert(items[i] == p[i]);
            }
        }
    }
}

/// A glob record as `new_glob` makes it from some resources (its map is what
/// the function finds among them) is not outdated against those resources,
/// and becomes outdated, as `is_outdated` answers, when a resource that its
/// function accepts is added under a new id, is removed, or has its content
/// hash changed.
pub proof fn law_glob_record_is_current_until_accepted_resource_changes(
    name: DependencyFuncName,
    res: Resources,
    d: DependenciesView,
    res2: Resources,
    k: Seq<char>,
)
    requires
        keys_distinct(res.resources.items()),
        ids_match(res.resources@),
        keys_distinct(res2.resources.items()),
        ids_match(res2.resources@),
        dep_func_named(name.0@) is Some,
        d.dep_type == DependencyType::Glob(name),
        d.map() == glob_map(dep_func_named(name.0@)->Some_0, res.resources.items()),
    ensures
        !outdated(d, res),
        (!res.resources@.dom().contains(k) && res2.resources@.dom().contains(k)
            && dep_func_named(name.0@)->Some_0.accepts(res2.resources@[k].resource_data))
        || (res.resources@.dom().contains(k) && dep_func_named(name.0@)->Some_0.accepts(res.resources@[k].resource_data)
            && !res2.resources@.dom().contains(k))
        || (res.resources@.dom().contains(k) && dep_func_named(name.0@)->Some_0.accepts(res.resources@[k].resource_data)
            && res2.resources@.dom().contains(k)
            && res2.resources@[k].content_hash@ != res.resources@[k].content_hash@)
        ==> outdated(d, res2),
{
    let items = res.resources.items();
    let items2 = res2.resources.items();
    let f = dep_func_named(name.0@)->Some_0;
    assert forall|i: int| 0 <= i < items.len() implies (#[trigger] items[i]).1.id@ == items[i].0 by {
        lemma_map_of_index(items, i);
    }
    lemma_glob_map_exact(f, items);
    assert(!glob_changed(f, d.map(), items));
    assert forall|j: Seq<char>| #[trigger] d.map().dom().contains(j) implies res.resources@.dom().contains(j)
        && res.resources@[j].content_hash@ == d.map()[j] by {
        let i = choose|i: int| 0 <= i < items.len() && items[i].1.id@ == j && f.accepts(items[i].1.resource_data);
        lemma_map_of_index(items, i);
    }
    assert(!deps_outdated(d.map(), res.resources@));
    if (!res.resources@.dom().contains(k) && res2.resources@.dom().contains(k) && f.accepts(res2.resources@[k].resource_data))
        || (res.resources@.dom().contains(k) && f.accepts(res.resources@[k].resource_data) && !res2.resources@.dom().contains(k))
        || (res.resources@.dom().contains(k) && f.accepts(res.resources@[k].resource_data)
            && res2.resources@.dom().contains(k) && res2.resources@[k].content_hash@ != res.resources@[k].content_hash@) {
        if res.resources@.dom().contains(k) {
            let i = choose|i: int| 0 <= i < items.len() && items[i].0 == k;
            lemma_map_of_index(items, i);
            assert(items[i].1.id@ == k);
            assert(d.map().dom().contains(items[i].1.id@));
            assert(d.map()[k] == items[i].1.content_hash@);
            assert(deps_outdated(d.map(), res2.resources@));
        } else {
            if d.map().dom().contains(k) {
                let i = choose|i: int| 0 <= i < items.len() && items[i].1.id@ == k && f.accepts(items[i].1.resource_data);
                lemma_map_of_index(items, i);
            }
            let i = choose|i: int| 0 <= i < items2.len() && items2[i].0 == k;
            lemma_map_of_index(items2, i);
            assert(items2[i].1.id@ == k);
            assert(glob_changed(f, d.map(), items2));
        }
    }
}

/// What each registered glob function depends on, and nothing else: the
/// category generator on the images and the `categories.json` site data
/// file; the print compiler on the images and the `print.json` site data
/// file; the templates on the images, the thumbnails and the generated data
/// named `categories` or `print.json`.
pub proof fn law_dependency_functions_accept(d: ResourceData)
    ensures
        dep_func_named(CATEGORY_DEP_FUNC_NAME@) == Some(DepFunc::Category),
        dep_func_named(PRINT_DEP_FUNC_NAME@) == Some(DepFunc::Print),
        dep_func_named(TEMPLATES_DEP_FUNC_NAME@) == Some(DepFunc::Templates),
        DepFunc::Category.accepts(d) <==> (d is Image
            || (d matches ResourceData::Sitedata(c) && c.filename@ == "categories.json"@)),
        DepFunc::Print.accepts(d) <==> (d is Image
            || (d matches ResourceData::Sitedata(c) && c.filename@ == "print.json"@)),
        DepFunc::Templates.accepts(d) <==> (d is Image || d is Thumbnail
            || (d matches ResourceData::GeneratedData(g) && (g.name@ == "categories"@ || g.name@ == "print.json"@))),
{
    reveal_strlit("category_dep_func");
    reveal_strlit("print_dep_func");
    reveal_strlit("TERA_TEMPLATES_DEP");
    assert(CATEGORY_DEP_FUNC_NAME@ == "category_dep_func"@);
    assert(PRINT_DEP_FUNC_NAME@ == "print_dep_func"@);
    assert(TEMPLATES_DEP_FUNC_NAME@ == "TERA_TEMPLATES_DEP"@);
    assert(PRINT_DEP_FUNC_NAME@.len() != CATEGORY_DEP_FUNC_NAME@.len());
    assert(TEMPLATES_DEP_FUNC_NAME@.len() != CATEGORY_DEP_FUNC_NAME@.len());
    assert(TEMPLATES_DEP_FUNC_NAME@.len() != PRINT_DEP_FUNC_NAME@.len());
}

/// Adding, under a new id, a resource that the function of a fresh glob
/// record does not accept leaves the record current.
pub proof fn law_adding_unaccepted_resource_keeps_glob_record_current(
    name: DependencyFuncName,
    res: Resources,
    d: DependenciesView,
    res2: Resources,
    k: Seq<char>,
)
    requires
        keys_distinct(res.resources.items()),
        ids_match(res.resources@),
        keys_distinct(res2.resources.items()),
        ids_match(res2.resources@),
        dep_func_named(name.0@) is Some,
        d.dep_type == DependencyType::Glob(name),
        d.map() == glob_map(dep_func_named(name.0@)->Some_0, res.resources.items()),
        !res.resources@.dom().contains(k),
        res2.resources@ == res.resources@.insert(k, res2.resources@[k]),
        !dep_func_named(name.0@)->Some_0.accepts(res2.resources@[k].resource_data),
    ensures
        !outdated(d, res2),
{
    let items = res.resources.items();
    let items2 = res2.resources.items();
    let f = dep_func_named(name.0@)->Some_0;
    assert forall|i: int| 0 <= i < items.len() implies (#[trigger] items[i]).1.id@ == items[i].0 by {
        lemma_map_of_index(items, i);
    }
    lemma_glob_map_exact(f, items);
    assert(!d.map().dom().contains(k)) by {
        if d.map().dom().contains(k) {
            let i = choose|i: int| 0 <= i < items.len() && items[i].1.id@ == k && f.accepts(items[i].1.resource_data);
            lemma_map_of_index(items, i);
        }
    }
    assert forall|i: int| 0 <= i < items2.len()
        implies d.map().dom().contains(#[trigger] items2[i].1.id@) == f.accepts(items2[i].1.resource_data) by {
        lemma_map_of_index(items2, i);
        let key = items2[i].0;
        assert(items2[i].1.id@ == key);
        if key != k {
            assert(res.resources@.dom().contains(key));
            let j = choose|j: int| 0 <= j < items.len() && items[j].0 == key;
            lemma_map_of_index(items, j);
            assert(items[j].1 == items2[i].1);
        }
    }
    assert(!glob_changed(f, d.map(), items2));
    assert forall|j: Seq<char>| #[trigger] d.map().dom().contains(j) implies res2.resources@.dom().contains(j)
        && res2.resources@[j].content_hash@ == d.map()[j] by {
        let i = choose|i: int| 0 <= i < items.len() && items[i].1.id@ == j && f.accepts(items[i].1.resource_data);
        lemma_map_of_index(items, i);
    }
    assert(!deps_outdated(d.map(), res2.resources@));
}

/// The computed categories, added to the inventory their record was made
/// from, are not outdated there: generated data is no dependency of the
/// category generator.
pub proof fn law_fresh_categories_resource_is_current(
    name: DependencyFuncName,
    res: Resources,
    d: DependenciesView,
    res2: Resources,
    k: Seq<char>,
)
    requires
        keys_distinct(res.resources.items()),
        ids_match(res.resources@),
        keys_distinct(res2.resources.items()),
        ids_match(res2.resources@),
        name.0@ == CATEGORY_DEP_FUNC_NAME@,
        d.dep_type == DependencyType::Glob(name),
        d.map() == glob_map(DepFunc::Category, res.resources.items()),
        !res.resources@.dom().contains(k),
        res2.resources@ == res.resources@.insert(k, res2.resources@[k]),
        res2.resources@[k].resource_data is GeneratedData,
    ensures
        !outdated(d, res2),
{
    law_dependency_functions_accept(res2.resources@[k].resource_data);
    law_adding_unaccepted_resource_keeps_glob_record_current(name, res, d, res2, k);
}

/// Every resource that `before` has and `after` lacks is filed under a key
/// of `q`, or was generated from a resource that `before` has and `after`
/// lacks too.
pub open spec fn removed_through_chain(
    before: Map<Seq<char>, Resource>,
    after: Map<Seq<char>, Resource>,
    q: Set<Seq<char>>,
) -> bool {
    forall|k: Seq<char>| #[trigger] before.dom().contains(k) && !after.dom().contains(k) ==> q.contains(k)
        || exists|j: Seq<char>| before.dom().contains(j) && !after.dom().contains(j)
            && #[trigger] depends_on_id(before[k], j)
}

/// Two removals in a row: what the second removes for its own reason is
/// justified against the start, so the whole is a removal through chains.
pub proof fn lemma_chain_compose(
    m0: Map<Seq<char>, Resource>,
    before: Map<Seq<char>, Resource>,
    after: Map<Seq<char>, Resource>,
    q: Set<Seq<char>>,
    q2: Set<Seq<char>>,
)
    requires
        before.submap_of(m0),
        after.submap_of(before),
        removed_through_chain(m0, before, q),
        removed_through_chain(before, after, q2),
        forall|k: Seq<char>| before.dom().contains(k) && !after.dom().contains(k) && #[trigger] q2.contains(k)
            ==> q.contains(k) || exists|j: Seq<char>| m0.dom().contains(j) && !before.dom().contains(j)
                && #[trigger] depends_on_id(m0[k], j),
    ensures
        removed_through_chain(m0, after, q),
{
    assert forall|k: Seq<char>| #[trigger] m0.dom().contains(k) && !after.dom().contains(k) implies q.contains(k)
        || exists|j: Seq<char>| m0.dom().contains(j) && !after.dom().contains(j) && #[trigger] depends_on_id(m0[k], j) by {
        if !before.dom().contains(k) {
            if !q.contains(k) {
                let j = choose|j: Seq<char>| m0.dom().contains(j) && !before.dom().contains(j)
                    && #[trigger] depends_on_id(m0[k], j);
                assert(!after.dom().contains(j));
            }
        } else {
            lemma_submap_get(before, m0, k);
            if q2.contains(k) {
                if !q.contains(k) {
                    let j = choose|j: Seq<char>| m0.dom().contains(j) && !before.dom().contains(j)
                        && #[trigger] depends_on_id(m0[k], j);
                    assert(!after.dom().contains(j));
                }
            } else {
                let j = choose|j: Seq<char>| before.dom().contains(j) && !after.dom().contains(j)
                    && #[trigger] depends_on_id(before[k], j);
                lemma_submap_get(before, m0, j);
            }
        }
    }
}

/// What `remove_resource` reports of its removals makes a removal through
/// chains from the resource filed under `id`.
proof fn lemma_removed_list_chain(
    before: Map<Seq<char>, Resource>,
    after: Map<Seq<char>, Resource>,
    removed: Seq<Resource>,
    id: Seq<char>,
)
    requires
        ids_match(before),
        before.dom().contains(id) ==> removed.len() > 0 && removed.last()@ == before[id]@,
        !before.dom().contains(id) ==> removed.len() == 0,
        forall|i: int| 0 <= i < removed.len() ==> before.dom().contains(#[trigger] removed[i].id@)
            && before[removed[i].id@] == removed[i] && !after.dom().contains(removed[i].id@),
        forall|k: Seq<char>| before.dom().contains(k) && !after.dom().contains(k)
            ==> exists|i: int| 0 <= i < removed.len() && #[trigger] removed[i].id@ == k,
        forall|i: int| 0 <= i < removed.len() - 1 ==> exists|j: int| i < j < removed.len()
            && depends_on_id(#[trigger] removed[i], removed[j].id@),
    ensures
        removed_through_chain(before, after, set![id]),
{
    assert forall|k: Seq<char>| #[trigger] before.dom().contains(k) && !after.dom().contains(k) implies set![id].contains(k)
        || exists|j: Seq<char>| before.dom().contains(j) && !after.dom().contains(j)
            && #[trigger] depends_on_id(before[k], j) by {
        let i = choose|i: int| 0 <= i < removed.len() && #[trigger] removed[i].id@ == k;
        assert(before[k] == removed[i]);
        if i < removed.len() - 1 {
            let t = choose|t: int| i < t < removed.len() && depends_on_id(#[trigger] removed[i], removed[t].id@);
            assert(before.dom().contains(removed[t].id@));
            assert(!after.dom().contains(removed[t].id@));
            assert(depends_on_id(before[k], removed[t].id@));
        } else {
            assert(before.dom().contains(id));
            assert(removed[i]@ == before[id]@);
            assert(removed[i].id@ == before[id].id@);
            assert(before[k].id@ == id);
            assert(k == id);
        }
    }
}

impl Resources {
    /// Removes the resource filed under `id` and every resource generated
    /// from it, transitively. Returns the removed resources: the one filed
    /// under `id` comes last, and each of the others was generated from one
    /// that comes after it. Nothing left depends on a removed resource.
    pub fn remove_resource(&mut self, id: &str) -> (removed: Vec<Resource>)
        requires
            ids_match(old(self).resources@),
        ensures
            ids_match(final(self).resources@),
            final(self).resources@.submap_of(old(self).resources@),
            final(self).resources.items().len() <= old(self).resources.items().len(),
            old(self).resources@.dom().contains(id@) ==> final(self).resources.items().len() < old(self).resources.items().len(),
            !final(self).resources@.dom().contains(id@),
            old(self).resources@.dom().contains(id@) ==> removed@.len() > 0 && removed@.last()@ == old(self).resources@[id@]@,
            !old(self).resources@.dom().contains(id@) ==> removed@.len() == 0
                && final(self).resources@ == old(self).resources@,
            forall|i: int| 0 <= i < removed@.len() ==> old(self).resources@.dom().contains(#[trigger] removed@[i].id@)
                && old(self).resources@[removed@[i].id@] == removed@[i]
                && !final(self).resources@.dom().contains(removed@[i].id@),
            forall|k: Seq<char>| old(self).resources@.dom().contains(k) && !final(self).resources@.dom().contains(k)
                ==> exists|i: int| 0 <= i < removed@.len() && #[trigger] removed@[i].id@ == k,
            forall|k: Seq<char>, i: int| final(self).resources@.dom().contains(k) && 0 <= i < removed@.len()
                ==> !depends_on_id(#[trigger] final(self).resources@[k], #[trigger] removed@[i].id@),
            forall|i: int| 0 <= i < removed@.len() - 1 ==> exists|j: int| i < j < removed@.len()
                && depends_on_id(#[trigger] removed@[i], removed@[j].id@),
            removed_through_chain(old(self).resources@, final(self).resources@, set![id@]),
        decreases old(self).resources.items().len(),
    {
        let ghost m0 = self.resources@;
        let ghost n0 = self.resources.items().len();
        match self.resources.remove(id) {
            None => {
                let r: Vec<Resource> = Vec::new();
                r
            },
            Some(resource) => {
                let ghost m1 = self.resources@;
                assert(resource.id@ == id@);
                let deps = reverse_dependencies(&resource, self);
                let ghost items1 = self.resources.items();
                let mut removed: Vec<Resource> = Vec::new();
                let mut j: usize = 0;
                while j < deps.len()
                    invariant
                        m1 == m0.remove(id@),
                        resource.id@ == id@,
                        m0.dom().contains(id@) && m0[id@] == resource,
                        ids_match(m0),
                        ids_match(self.resources@),
                        self.resources@.submap_of(m1),
                        self.resources.items().len() < n0,
                        n0 == old(self).resources.items().len(),
                        m0 == old(self).resources@,
                        j <= deps@.len(),
                        forall|k: int| 0 <= k < j ==> !self.resources@.dom().contains(#[trigger] deps@[k]@),
                        forall|i: int| 0 <= i < removed@.len() ==> m1.dom().contains(#[trigger] removed@[i].id@)
                            && m1[removed@[i].id@] == removed@[i]
                            && !self.resources@.dom().contains(removed@[i].id@),
                        forall|k: Seq<char>| m1.dom().contains(k) && !self.resources@.dom().contains(k)
                            ==> exists|i: int| 0 <= i < removed@.len() && #[trigger] removed@[i].id@ == k,
                        forall|k: Seq<char>, i: int| self.resources@.dom().contains(k) && 0 <= i < removed@.len()
                            ==> !depends_on_id(#[trigger] self.resources@[k], #[trigger] removed@[i].id@),
                        forall|i: int| 0 <= i < removed@.len() ==> depends_on_id(#[trigger] removed@[i], id@)
                            || exists|t: int| i < t < removed@.len() && depends_on_id(removed@[i], removed@[t].id@),
                        deps@.map_values(|s: String| s@) == rev_deps(items1, id@),
                        crate::strmap::keys_distinct(items1),
                        ids_match(m1),
                        m1 == map_of(items1),
                    decreases deps@.len() - j,
                {
                    let ghost before = self.resources@;
                    let ghost removed_before = removed@;
                    assert(before.submap_of(m1));
                    let mut r = self.remove_resource(deps[j].as_str());
                    let ghost r_view = r@;
                    removed.append(&mut r);
                    proof {
                        assert forall|k: Seq<char>| #[trigger] self.resources@.dom().contains(k)
                            implies m1.dom().contains(k) && self.resources@[k] == m1[k] by {
                            assert(before.dom().contains(k));
                            assert(self.resources@[k] == before[k]);
                            lemma_submap_get(before, m1, k);
                        }
                        assert(self.resources@.submap_of(m1));
                        assert forall|i: int| 0 <= i < removed@.len() implies m1.dom().contains(#[trigger] removed@[i].id@)
                            && m1[removed@[i].id@] == removed@[i]
                            && !self.resources@.dom().contains(removed@[i].id@) by {
                            if i >= removed_before.len() {
                                assert(removed@[i] == r_view[i - removed_before.len()]);
                            } else {
                                assert(removed@[i] == removed_before[i]);
                            }
                        }
                        assert forall|k: Seq<char>| m1.dom().contains(k) && !self.resources@.dom().contains(k)
                            implies exists|i: int| 0 <= i < removed@.len() && #[trigger] removed@[i].id@ == k by {
                            if before.dom().contains(k) {
                                let i = choose|i: int| 0 <= i < r_view.len() && #[trigger] r_view[i].id@ == k;
                                assert(removed@[removed_before.len() + i] == r_view[i]);
                            } else {
                                let i = choose|i: int| 0 <= i < removed_before.len() && #[trigger] removed_before[i].id@ == k;
                                assert(removed@[i] == removed_before[i]);
                            }
                        }
                        assert forall|k: Seq<char>, i: int| self.resources@.dom().contains(k) && 0 <= i < removed@.len()
                            implies !depends_on_id(#[trigger] self.resources@[k], #[trigger] removed@[i].id@) by {
                            if i >= removed_before.len() {
                                assert(removed@[i] == r_view[i - removed_before.len()]);
                            } else {
                                assert(removed@[i] == removed_before[i]);
                                assert(before.dom().contains(k));
                            }
                        }
                        assert forall|i: int| 0 <= i < removed@.len() implies depends_on_id(#[trigger] removed@[i], id@)
                            || exists|t: int| i < t < removed@.len() && depends_on_id(removed@[i], removed@[t].id@) by {
                            let nb = removed_before.len();
                            if i < nb {
                                assert(removed@[i] == removed_before[i]);
                                if !depends_on_id(removed_before[i], id@) {
                                    let t = choose|t: int| i < t < nb && depends_on_id(removed_before[i], removed_before[t].id@);
                                    assert(removed@[t] == removed_before[t]);
                                }
                            } else if i < removed@.len() - 1 {
                                assert(removed@[i] == r_view[i - nb]);
                                let t = choose|t: int| i - nb < t < r_view.len() && depends_on_id(r_view[i - nb], r_view[t].id@);
                                assert(removed@[nb + t] == r_view[t]);
                            } else {
                                let last = r_view[r_view.len() - 1];
                                assert(removed@[i] == last);
                                assert(before.dom().contains(deps@[j as int]@));
                                assert(last@ == before[deps@[j as int]@]@);
                                assert(before[last.id@] == last);
                                assert(last.id@ == deps@[j as int]@);
                                assert(deps@.map_values(|s: String| s@)[j as int] == deps@[j as int]@);
                                lemma_rev_deps_member(items1, id@, j as int);
                                let idx = choose|idx: int| 0 <= idx < items1.len()
                                    && #[trigger] items1[idx].1.id@ == rev_deps(items1, id@)[j as int]
                                    && depends_on_id(items1[idx].1, id@);
                                crate::strmap::lemma_map_of_index(items1, idx);
                                assert(m1[items1[idx].0] == items1[idx].1);
                                assert(items1[idx].0 == items1[idx].1.id@);
                                lemma_submap_get(before, m1, last.id@);
                            }
                        }
                        assert forall|k: int| 0 <= k < j + 1 implies !self.resources@.dom().contains(#[trigger] deps@[k]@) by {
                            if k < j {
                                assert(!before.dom().contains(deps@[k]@));
                            }
                        }
                    }
                    j = j + 1;
                }
                let ghost removed_children = removed@;
                proof {
                    // Nothing left depends on the removed resource itself.
                    assert forall|k: Seq<char>| self.resources@.dom().contains(k)
                        implies !depends_on_id(#[trigger] self.resources@[k], id@) by {
                        if depends_on_id(self.resources@[k], id@) {
                            assert(m1.dom().contains(k));
                            let idx = choose|idx: int| 0 <= idx < items1.len() && items1[idx].0 == k;
                            crate::strmap::lemma_map_of_index(items1, idx);
                            assert(items1[idx].1 == m1[k]);
                            assert(m1[k].id@ == k);
                            let jj = choose|jj: int| 0 <= jj < deps@.len() && deps@[jj]@ == items1[idx].1.id@;
                            assert(!self.resources@.dom().contains(deps@[jj]@));
                        }
                    }
                }
                removed.push(resource);
                proof {
                    assert forall|i: int| 0 <= i < removed@.len() implies m0.dom().contains(#[trigger] removed@[i].id@)
                        && m0[removed@[i].id@] == removed@[i]
                        && !self.resources@.dom().contains(removed@[i].id@) by {
                        if i < removed_children.len() {
                            assert(removed@[i] == removed_children[i]);
                            assert(m1.dom().contains(removed@[i].id@));
                            assert(removed@[i].id@ != id@);
                            assert(m0[removed@[i].id@] == m1[removed@[i].id@]);
                        } else {
                            assert(removed@[i] == resource);
                            assert(!m1.dom().contains(id@));
                            if self.resources@.dom().contains(id@) {
                                assert(m1.dom().contains(id@));
                            }
                        }
                    }
                    assert forall|k: Seq<char>| m0.dom().contains(k) && !self.resources@.dom().contains(k)
                        implies exists|i: int| 0 <= i < removed@.len() && #[trigger] removed@[i].id@ == k by {
                        if k == id@ {
                            assert(removed@[removed@.len() - 1].id@ == k);
                        } else {
                            let i = choose|i: int| 0 <= i < removed_children.len() && #[trigger] removed_children[i].id@ == k;
                            assert(removed@[i] == removed_children[i]);
                        }
                    }
                    assert forall|k: Seq<char>, i: int| self.resources@.dom().contains(k) && 0 <= i < removed@.len()
                        implies !depends_on_id(#[trigger] self.resources@[k], #[trigger] removed@[i].id@) by {
                        if i < removed_children.len() {
                            assert(removed@[i] == removed_children[i]);
                        }
                    }
                    assert(self.resources@.submap_of(m0));
                    assert forall|i: int| 0 <= i < removed@.len() - 1 implies exists|t: int| i < t < removed@.len()
                        && depends_on_id(#[trigger] removed@[i], removed@[t].id@) by {
                        assert(removed@[i] == removed_children[i]);
                        if depends_on_id(removed_children[i], id@) {
                            assert(removed@[removed@.len() - 1].id@ == id@);
                        } else {
                            let t = choose|t: int| i < t < removed_children.len()
                                && depends_on_id(removed_children[i], removed_children[t].id@);
                            assert(removed@[t] == removed_children[t]);
                        }
                    }
                    lemma_removed_list_chain(m0, self.resources@, removed@, id@);
                }
                removed
            },
        }
    }
}

} // verus!

verus! {

/// The bytes a dependency record hashes: each id's UTF-8 bytes followed by
/// its content hash's, entry after entry.
pub open spec fn dep_bytes(entries: Seq<(Seq<char>, Seq<char>)>) -> Seq<u8>
    decreases entries.len(),
{
    if entries.len() == 0 {
        Seq::empty()
    } else {
        dep_bytes(entries.drop_last()) + encode_utf8(entries.last().0) + encode_utf8(entries.last().1)
    }
}

/// Managing dependency records against the resources.
pub trait DependencyManger: Sized {
    /// The record of every resource the registered function `name` accepts.
    fn new_glob(name: &DependencyFuncName, resources: &Resources) -> Self
        requires
            dep_func_named(name.0@) is Some;

    /// The number of dependencies recorded.
    spec fn entry_count(&self) -> nat;

    /// A digest of the record, naming the content a generated resource was
    /// made from. The record must not be empty.
    fn hash_deps(&self) -> String
        requires
            self.entry_count() > 0;

    /// Whether the record's type can be evaluated: direct, or a registered
    /// glob function.
    fn is_valid(&self) -> bool;

    /// Whether the generated resource must be made again.
    fn is_outdated(&self, resources: &Resources) -> bool;
}

impl DependencyManger for Dependencies {
    fn new_glob(name: &DependencyFuncName, resources: &Resources) -> (r: Dependencies)
        ensures
            r@.map() == glob_map(dep_func_named(name.0@)->Some_0, resources.resources.items()),
            r@.dep_type == DependencyType::Glob(*name),
    {
        let f = lookup_dep_func(name).unwrap();
        let ghost items = resources.resources.items();
        let n = resources.resources.len();
        let mut deps: StrMap<String> = StrMap::new();
        let mut i: usize = 0;
        assert(items.take(0) =~= Seq::<(Seq<char>, Resource)>::empty());
        assert(deep_map(deps@) =~= Map::<Seq<char>, Seq<char>>::empty());
        while i < n
            invariant
                i <= n == items.len(),
                items == resources.resources.items(),
                deep_map(deps@) == glob_map(f, items.take(i as int)),
            decreases n - i,
        {
            let x = resources.resources.value_at(i);
            let ghost before = deps@;
            proof { assert(items.take(i + 1).drop_last() =~= items.take(i as int)); }
            if f.apply(x) {
                deps.insert(x.id.clone(), x.content_hash.clone());
                assert(deep_map(deps@) =~= deep_map(before).insert(x.id@, x.content_hash@));
            }
            i = i + 1;
        }
        assert(items.take(n as int) =~= items);
        let _ = deps.len();
        proof { lemma_deep_items_map(deps); }
        Dependencies::new(deps, DependencyType::Glob(DependencyFuncName(name.0.clone())))
    }

    open spec fn entry_count(&self) -> nat {
        self@.entries.len()
    }

    fn hash_deps(&self) -> (s: String)
        ensures
            s@ == crate::digest::lower_hex(crate::digest::sha256(dep_bytes(self@.entries))),
    {
        let dependencies = self.get_dependencies();
        let n = dependencies.len();
        let ghost entries = self@.entries;
        let mut bytes: Vec<u8> = Vec::new();
        let mut i: usize = 0;
        assert(entries.take(0) =~= Seq::<(Seq<char>, Seq<char>)>::empty());
        while i < n
            invariant
                i <= n == dependencies.items().len(),
                entries == dependencies.deep_items(),
                bytes@ == dep_bytes(entries.take(i as int)),
            decreases n - i,
        {
            crate::digest::append_utf8(&mut bytes, dependencies.key_at(i).as_str());
            crate::digest::append_utf8(&mut bytes, dependencies.value_at(i).as_str());
            proof {
                assert(entries.take(i + 1).drop_last() =~= entries.take(i as int));
                assert(bytes@ =~= dep_bytes(entries.take(i + 1)));
            }
            i = i + 1;
        }
        assert(entries.take(n as int) =~= entries);
        let digest = crate::digest::sha256_digest(bytes.as_slice());
        crate::digest::to_lower_hex(&digest)
    }

    fn is_valid(&self) -> (b: bool)
        ensures
            b == (match self@.dep_type {
                DependencyType::Direct => true,
                DependencyType::Glob(n) => dep_func_named(n.0@) is Some,
            }),
    {
        match self.dep_type() {
            DependencyType::Direct => true,
            DependencyType::Glob(name) => lookup_dep_func(name).is_some(),
        }
    }

    fn is_outdated(&self, resources: &Resources) -> (b: bool)
        ensures
            (match self@.dep_type {
                DependencyType::Direct => true,
                DependencyType::Glob(n) => dep_func_named(n.0@) is Some,
            }) ==> b == outdated(self@, *resources),
    {
        let deps = self.get_dependencies();
        let _ = deps.len();
        proof { lemma_deep_items_map(*deps); }
        match self.dep_type() {
            DependencyType::Direct => is_dep_outdated(resources, deps),
            DependencyType::Glob(f_name) => {
                match lookup_dep_func(f_name) {
                    None => false,
                    Some(f) => {
                        let ghost items = resources.resources.items();
                        let n = resources.resources.len();
                        let mut i: usize = 0;
                        while i < n
                            invariant
                                i <= n == items.len(),
                                items == resources.resources.items(),
                                self@.dep_type == DependencyType::Glob(*f_name),
                                dep_func_named(f_name.0@) == Some(f),
                                map_of(deps.deep_items()) == deep_map(deps@),
                                self@.map() == map_of(deps.deep_items()),
                                forall|j: int| 0 <= j < i ==> self@.map().dom().contains(#[trigger] items[j].1.id@)
                                    == f.accepts(items[j].1.resource_data),
                            decreases n - i,
                        {
                            let x = resources.resources.value_at(i);
                            let had_dep = deps.contains_key(x.id());
                            let has_dep = f.apply(x);
                            if had_dep != has_dep {
                                assert(deep_map(deps@).dom().contains(x.id@) == deps@.dom().contains(x.id@));
                                assert(self@.map().dom().contains(items[i as int].1.id@) != f.accepts(items[i as int].1.resource_data));
                                assert(glob_changed(f, self@.map(), items));
                                return true;
                            }
                            assert(deep_map(deps@).dom().contains(x.id@) == deps@.dom().contains(x.id@));
                            i = i + 1;
                        }
                        is_dep_outdated(resources, deps)
                    },
                }
            },
        }
    }
}

} // verus!

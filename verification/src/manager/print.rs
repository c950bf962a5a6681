//! Compiling the store's print configuration: checking each print against
//! the variant table, the description files and the images.
use vstd::prelude::*;
use crate::strmap::{StrMap, keys_distinct, lemma_map_of_index};
use crate::text::push_str;
use crate::datamodel::datamodel::{Resource, Resources, file_name, names_file};
use crate::datamodel::print::{PrintDefinition, PrintRaw, PrintCompiled, PrintCompiledView, Variant, clone_strings};

verus! {

/// The id under which the compiled print offers are recorded.
pub const PRINT_RES_ID: &'static str = "generated_data_resource:prints";
/// The id under which the computed categories are recorded.
pub const CATEGORIES_RES_ID: &'static str = "generated_data_resource:computed_categories";

/// Every resource path names a file.
pub open spec fn paths_name_files(m: Map<Seq<char>, Resource>) -> bool {
    forall|k: Seq<char>| #[trigger] m.dom().contains(k) ==> names_file(m[k].path@)
}

/// The first resource, in order, whose file name is `name`.
pub open spec fn first_named(items: Seq<(Seq<char>, Resource)>, name: Seq<char>) -> Option<Resource>
    decreases items.len(),
{
    if items.len() == 0 {
        None
    } else if file_name(items[0].1.path@) == name {
        Some(items[0].1)
    } else {
        first_named(items.skip(1), name)
    }
}

/// The description of a print: the contents of its description files, in
/// order, if every one of them could be read.
pub open spec fn joined_descriptions(files: Seq<String>, texts: Map<Seq<char>, String>) -> Option<Seq<char>>
    decreases files.len(),
{
    if files.len() == 0 {
        Some(Seq::empty())
    } else {
        match joined_descriptions(files.drop_last(), texts) {
            None => None,
            Some(d) => if texts.dom().contains(files.last()@) { Some(d + texts[files.last()@]@) } else { None },
        }
    }
}

/// A print compiles when all its variants are in the table, all its
/// description files were read, and an image has its name.
pub open spec fn compile_print(p: PrintRaw, variants: Map<Seq<char>, Variant>, texts: Map<Seq<char>, String>,
    items: Seq<(Seq<char>, Resource)>) -> Option<PrintCompiledView>
{
    if !(forall|i: int| 0 <= i < p.variants@.len() ==> variants.dom().contains(#[trigger] p.variants@[i]@)) {
        None
    } else {
        match joined_descriptions(p.description@, texts) {
            None => None,
            Some(d) => match first_named(items, p.name@) {
                None => None,
                Some(r) => Some(PrintCompiledView {
                    name: p.name@,
                    variants: p.variants@.map_values(|s: String| s@),
                    description: d,
                    id: r.id@,
                    brief: p.brief@,
                }),
            },
        }
    }
}

/// The prints of a category that compile, in order.
pub open spec fn compile_prints(ps: Seq<PrintRaw>, variants: Map<Seq<char>, Variant>, texts: Map<Seq<char>, String>,
    items: Seq<(Seq<char>, Resource)>) -> Seq<PrintCompiledView>
    decreases ps.len(),
{
    if ps.len() == 0 {
        Seq::empty()
    } else {
        match compile_print(ps.last(), variants, texts, items) {
            Some(c) => compile_prints(ps.drop_last(), variants, texts, items).push(c),
            None => compile_prints(ps.drop_last(), variants, texts, items),
        }
    }
}

fn find_named<'a>(resources: &'a Resources, name: &str) -> (r: Option<&'a Resource>)
    requires
        paths_name_files(resources.resources@),
    ensures
        match r {
            Some(x) => first_named(resources.resources.items(), name@) == Some(*x),
            None => first_named(resources.resources.items(), name@) is None,
        },
{
    let ghost items = resources.resources.items();
    let n = resources.resources.len();
    let mut i: usize = 0;
    assert(items.skip(0) =~= items);
    while i < n
        invariant
            i <= n == items.len(),
            items == resources.resources.items(),
            keys_distinct(items),
            paths_name_files(resources.resources@),
            first_named(items, name@) == first_named(items.skip(i as int), name@),
        decreases n - i,
    {
        let x = resources.resources.value_at(i);
        proof {
            lemma_map_of_index(items, i as int);
            assert(items.skip(i as int)[0] == items[i as int]);
            assert(items.skip(i as int).skip(1) =~= items.skip(i + 1));
        }
        let f = x.get_filename();
        if crate::text::str_eq(f.as_str(), name) {
            return Some(x);
        }
        i = i + 1;
    }
    proof {
        assert(items.skip(n as int) =~= Seq::<(Seq<char>, Resource)>::empty());
    }
    None
}

fn join_descriptions(files: &Vec<String>, texts: &StrMap<String>) -> (r: Option<String>)
    ensures
        match r {
            Some(s) => joined_descriptions(files@, texts@) == Some(s@),
            None => joined_descriptions(files@, texts@) is None,
        },
{
    let mut s = String::new();
    let mut i: usize = 0;
    assert(files@.take(0) =~= Seq::<String>::empty());
    while i < files.len()
        invariant
            i <= files@.len(),
            joined_descriptions(files@.take(i as int), texts@) == Some(s@),
        decreases files@.len() - i,
    {
        proof { assert(files@.take(i + 1).drop_last() =~= files@.take(i as int)); }
        match texts.get(files[i].as_str()) {
            Some(t) => push_str(&mut s, t.as_str()),
            None => {
                proof {
                    lemma_joined_none(files@, texts@, i + 1);
                }
                return None;
            },
        }
        i = i + 1;
    }
    assert(files@.take(files@.len() as int) =~= files@);
    Some(s)
}

/// Once a prefix of the files cannot be joined, no longer prefix can.
proof fn lemma_joined_none(files: Seq<String>, texts: Map<Seq<char>, String>, n: int)
    requires
        0 <= n <= files.len(),
        joined_descriptions(files.take(n), texts) is None,
    ensures
        joined_descriptions(files, texts) is None,
    decreases files.len() - n,
{
    if n < files.len() {
        assert(files.take(n + 1).drop_last() =~= files.take(n));
        lemma_joined_none(files, texts, n + 1);
    } else {
        assert(files.take(n) =~= files);
    }
}

fn all_variants_known(p: &PrintRaw, variants: &StrMap<Variant>) -> (b: bool)
    ensures
        b == (forall|i: int| 0 <= i < p.variants@.len() ==> variants@.dom().contains(#[trigger] p.variants@[i]@)),
{
    let mut i: usize = 0;
    while i < p.variants.len()
        invariant
            i <= p.variants@.len(),
            forall|j: int| 0 <= j < i ==> variants@.dom().contains(#[trigger] p.variants@[j]@),
        decreases p.variants@.len() - i,
    {
        if !variants.contains_key(p.variants[i].as_str()) {
            return false;
        }
        i = i + 1;
    }
    true
}

fn compile_one(p: &PrintRaw, variants: &StrMap<Variant>, texts: &StrMap<String>, resources: &Resources)
    -> (r: Option<PrintCompiled>)
    requires
        paths_name_files(resources.resources@),
    ensures
        match r {
            Some(c) => compile_print(*p, variants@, texts@, resources.resources.items()) == Some(c@),
            None => compile_print(*p, variants@, texts@, resources.resources.items()) is None,
        },
{
    if !all_variants_known(p, variants) {
        return None;
    }
    let description = match join_descriptions(&p.description, texts) {
        Some(d) => d,
        None => return None,
    };
    match find_named(resources, p.name.as_str()) {
        Some(res) => {
            let v = clone_strings(&p.variants);
            let c = PrintCompiled {
                name: p.name.clone(),
                variants: v,
                description,
                id: res.id.clone(),
                brief: p.brief.clone(),
            };
            assert(c.variants.deep_view() =~= p.variants@.map_values(|s: String| s@));
            Some(c)
        },
        None => None,
    }
}

/// Compiles the print configuration: the variant table is kept; each
/// category keeps, in order, its prints whose variants are all in the table,
/// whose description files were all read (`descriptions`: file name to
/// contents) and whose name is the file name of an image, with the image's
/// id and the descriptions joined; categories left empty are dropped.
pub fn compile_print_file(resources: &Resources, print_input: &PrintDefinition<PrintRaw>, descriptions: &StrMap<String>)
    -> (r: PrintDefinition<PrintCompiled>)
    requires
        paths_name_files(resources.resources@),
    ensures
        r.variants.items().len() == print_input.variants.items().len(),
        forall|i: int| 0 <= i < r.variants.items().len() ==> #[trigger] r.variants.items()[i] == print_input.variants.items()[i],
        forall|k: Seq<char>| #[trigger] r.prints@.dom().contains(k) <==> print_input.prints@.dom().contains(k)
            && compile_prints(print_input.prints@[k]@, print_input.variants@, descriptions@,
                resources.resources.items()).len() > 0,
        forall|k: Seq<char>| #[trigger] r.prints@.dom().contains(k) ==> r.prints@[k]@.map_values(|c: PrintCompiled| c@)
            == compile_prints(print_input.prints@[k]@, print_input.variants@, descriptions@, resources.resources.items()),
{
    let variants = print_input.variants.clone();
    proof {
        assert forall|i: int| 0 <= i < variants.items().len() implies #[trigger] variants.items()[i] == print_input.variants.items()[i] by {
            assert(variants.items()[i].0 == print_input.variants.items()[i].0);
            assert(cloned(print_input.variants.items()[i].1, variants.items()[i].1));
        }
    }
    let ghost items = print_input.prints.items();
    let ghost vm = print_input.variants@;
    let ghost tm = descriptions@;
    let ghost ritems = resources.resources.items();
    let n = print_input.prints.len();
    let mut out: StrMap<Vec<PrintCompiled>> = StrMap::new();
    let mut i: usize = 0;
    while i < n
        invariant
            i <= n == items.len(),
            items == print_input.prints.items(),
            keys_distinct(items),
            vm == print_input.variants@,
            tm == descriptions@,
            ritems == resources.resources.items(),
            paths_name_files(resources.resources@),
            forall|k: Seq<char>| #[trigger] out@.dom().contains(k) <==> exists|j: int| 0 <= j < i && items[j].0 == k
                && compile_prints(items[j].1@, vm, tm, ritems).len() > 0,
            forall|k: Seq<char>| #[trigger] out@.dom().contains(k) ==> exists|j: int| 0 <= j < i && items[j].0 == k
                && out@[k]@.map_values(|c: PrintCompiled| c@) == compile_prints(items[j].1@, vm, tm, ritems),
        decreases n - i,
    {
        let prints = print_input.prints.value_at(i);
        let mut compiled: Vec<PrintCompiled> = Vec::new();
        let mut p: usize = 0;
        assert(prints@.take(0) =~= Seq::<PrintRaw>::empty());
        assert(compiled@.map_values(|c: PrintCompiled| c@) =~= Seq::<PrintCompiledView>::empty());
        while p < prints.len()
            invariant
                p <= prints@.len(),
                vm == print_input.variants@,
                tm == descriptions@,
                ritems == resources.resources.items(),
                paths_name_files(resources.resources@),
                compiled@.map_values(|c: PrintCompiled| c@) == compile_prints(prints@.take(p as int), vm, tm, ritems),
            decreases prints@.len() - p,
        {
            proof { assert(prints@.take(p + 1).drop_last() =~= prints@.take(p as int)); }
            match compile_one(&prints[p], &print_input.variants, descriptions, resources) {
                Some(c) => {
                    let ghost cv = c@;
                    compiled.push(c);
                    assert(compiled@.map_values(|c: PrintCompiled| c@)
                        =~= compile_prints(prints@.take(p as int), vm, tm, ritems).push(cv));
                },
                None => {},
            }
            p = p + 1;
        }
        assert(prints@.take(prints@.len() as int) =~= prints@);
        if compiled.len() > 0 {
            let ghost before = out@;
            let k = print_input.prints.key_at(i).clone();
            proof {
                if before.dom().contains(k@) {
                    let j = choose|j: int| 0 <= j < i && items[j].0 == k@ && compile_prints(items[j].1@, vm, tm, ritems).len() > 0;
                    assert(items[j].0 == items[i as int].0);
                }
            }
            let _ = out.insert(k, compiled);
            proof {
                assert forall|k2: Seq<char>| #[trigger] out@.dom().contains(k2) implies exists|j: int| 0 <= j < i + 1
                    && items[j].0 == k2 && out@[k2]@.map_values(|c: PrintCompiled| c@) == compile_prints(items[j].1@, vm, tm, ritems) by {
                    if k2 != items[i as int].0 {
                        assert(before.dom().contains(k2));
                    }
                }
            }
        }
        i = i + 1;
    }
    proof {
        assert forall|k: Seq<char>| #[trigger] out@.dom().contains(k) <==> print_input.prints@.dom().contains(k)
            && compile_prints(print_input.prints@[k]@, vm, tm, ritems).len() > 0 by {
            if print_input.prints@.dom().contains(k) {
                let j = choose|j: int| 0 <= j < items.len() && items[j].0 == k;
                lemma_map_of_index(items, j);
            }
            if out@.dom().contains(k) {
                let j = choose|j: int| 0 <= j < n && items[j].0 == k && compile_prints(items[j].1@, vm, tm, ritems).len() > 0;
                lemma_map_of_index(items, j);
            }
        }
        assert forall|k: Seq<char>| #[trigger] out@.dom().contains(k) implies out@[k]@.map_values(|c: PrintCompiled| c@)
            == compile_prints(print_input.prints@[k]@, vm, tm, ritems) by {
            let j = choose|j: int| 0 <= j < n && items[j].0 == k
                && out@[k]@.map_values(|c: PrintCompiled| c@) == compile_prints(items[j].1@, vm, tm, ritems);
            lemma_map_of_index(items, j);
        }
    }
    PrintDefinition { variants, prints: out }
}

} // verus!

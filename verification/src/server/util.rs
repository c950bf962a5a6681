//! Lookups of prints, their variants and their thumbnails.
use vstd::prelude::*;
use crate::strmap::StrMap;
use crate::text::str_eq;
use crate::datamodel::datamodel::{Resource, Resources, BySize, ImageMetadata, ResourceDataType, ThumbnailSize};
use crate::datamodel::print::{PrintCompiled, PrintDefinition, Variant, all_prints};

verus! {

/// The first print of `s` whose id is `id`.
pub open spec fn first_with_id(s: Seq<PrintCompiled>, id: Seq<char>) -> Option<PrintCompiled>
    decreases s.len(),
{
    if s.len() == 0 {
        None
    } else if s[0].id@ == id {
        Some(s[0])
    } else {
        first_with_id(s.drop_first(), id)
    }
}

/// The first print with id `id` is the one at the first position holding that id.
pub proof fn lemma_first_with_id(s: Seq<PrintCompiled>, id: Seq<char>)
    ensures
        (forall|m: int| 0 <= m < s.len() ==> s[m].id@ != id) ==> first_with_id(s, id) is None,
        forall|k: int| 0 <= k < s.len() && s[k].id@ == id && (forall|m: int| 0 <= m < k ==> s[m].id@ != id)
            ==> first_with_id(s, id) == Some(s[k]),
    decreases s.len(),
{
    if s.len() > 0 {
        lemma_first_with_id(s.drop_first(), id);
        assert forall|k: int| 0 <= k < s.len() && s[k].id@ == id && (forall|m: int| 0 <= m < k ==> s[m].id@ != id)
            implies first_with_id(s, id) == Some(s[k]) by {
            if k > 0 {
                assert(s[0].id@ != id);
                assert(s.drop_first()[k - 1] == s[k]);
                assert forall|m: int| 0 <= m < k - 1 implies s.drop_first()[m].id@ != id by {
                    assert(s.drop_first()[m] == s[m + 1]);
                }
            }
        }
        if forall|m: int| 0 <= m < s.len() ==> s[m].id@ != id {
            assert forall|m: int| 0 <= m < s.len() - 1 implies s.drop_first()[m].id@ != id by {
                assert(s.drop_first()[m] == s[m + 1]);
            }
        }
    }
}

/// Searching a concatenation searches the first part, then the second.
pub proof fn lemma_first_with_id_append(a: Seq<PrintCompiled>, b: Seq<PrintCompiled>, id: Seq<char>)
    ensures
        first_with_id(a + b, id) == (match first_with_id(a, id) {
            Some(p) => Some(p),
            None => first_with_id(b, id),
        }),
    decreases a.len(),
{
    if a.len() == 0 {
        assert(a + b =~= b);
    } else {
        assert((a + b).drop_first() =~= a.drop_first() + b);
        assert((a + b)[0] == a[0]);
        lemma_first_with_id_append(a.drop_first(), b, id);
    }
}

/// The prints of a concatenation of categories are those of each part.
pub proof fn lemma_all_prints_append<P>(a: Seq<(Seq<char>, Vec<P>)>, b: Seq<(Seq<char>, Vec<P>)>)
    ensures
        all_prints(a + b) == all_prints(a) + all_prints(b),
    decreases b.len(),
{
    if b.len() == 0 {
        assert(a + b =~= a);
        assert(all_prints(a) + all_prints(b) =~= all_prints(a));
    } else {
        assert((a + b).drop_last() =~= a + b.drop_last());
        assert((a + b).last() == b.last());
        lemma_all_prints_append(a, b.drop_last());
        assert(all_prints(a + b) =~= all_prints(a) + all_prints(b));
    }
}

/// The prints of the first `i + 1` categories are those of the first `i` and
/// then those of category `i`.
pub proof fn lemma_all_prints_take<P>(s: Seq<(Seq<char>, Vec<P>)>, i: int)
    requires
        0 <= i < s.len(),
    ensures
        all_prints(s.take(i + 1)) == all_prints(s.take(i)) + s[i].1@,
{
    assert(s.take(i + 1).drop_last() =~= s.take(i));
}

/// The print whose id is `print_id`: the first one, category after category.
pub fn find_print(print_id: &str, prints: &PrintDefinition<PrintCompiled>) -> (r: Option<PrintCompiled>)
    ensures
        match r {
            Some(p) => first_with_id(all_prints(prints.prints.items()), print_id@) matches Some(q) && p@ == q@,
            None => first_with_id(all_prints(prints.prints.items()), print_id@) is None,
        },
{
    let ghost cats = prints.prints.items();
    let ghost id = print_id@;
    let n = prints.prints.len();
    let mut i: usize = 0;
    assert(cats.take(0) =~= Seq::<(Seq<char>, Vec<PrintCompiled>)>::empty());
    while i < n
        invariant
            i <= n == cats.len(),
            cats == prints.prints.items(),
            id == print_id@,
            first_with_id(all_prints(cats.take(i as int)), id) is None,
        decreases n - i,
    {
        let category_prints = prints.prints.value_at(i);
        let mut j: usize = 0;
        while j < category_prints.len()
            invariant
                i < n == cats.len(),
                cats == prints.prints.items(),
                id == print_id@,
                *category_prints == cats[i as int].1,
                j <= category_prints@.len(),
                forall|m: int| 0 <= m < j ==> category_prints@[m].id@ != id,
                first_with_id(all_prints(cats.take(i as int)), id) is None,
            decreases category_prints@.len() - j,
        {
            let p = &category_prints[j];
            if str_eq(p.id.as_str(), print_id) {
                proof {
                    let v = category_prints@;
                    lemma_first_with_id(v, id);
                    lemma_all_prints_take(cats, i as int);
                    assert(cats =~= cats.take(i + 1) + cats.skip(i + 1));
                    lemma_all_prints_append(cats.take(i + 1), cats.skip(i + 1));
                    assert(all_prints(cats) == all_prints(cats.take(i as int)) + (v + all_prints(cats.skip(i + 1)))) by {
                        assert(all_prints(cats.take(i as int)) + v + all_prints(cats.skip(i + 1))
                            =~= all_prints(cats.take(i as int)) + (v + all_prints(cats.skip(i + 1))));
                    }
                    lemma_first_with_id_append(all_prints(cats.take(i as int)), v + all_prints(cats.skip(i + 1)), id);
                    lemma_first_with_id_append(v, all_prints(cats.skip(i + 1)), id);
                }
                return Some(p.clone());
            }
            j = j + 1;
        }
        proof {
            lemma_first_with_id(category_prints@, id);
            lemma_all_prints_take(cats, i as int);
            lemma_first_with_id_append(all_prints(cats.take(i as int)), category_prints@, id);
        }
        i = i + 1;
    }
    assert(cats.take(n as int) =~= cats);
    None
}

/// The variants of `print`, each with its entry of the variant table. Every
/// variant the print names must be in the table.
pub fn get_variants(print: &PrintCompiled, print_definition: &PrintDefinition<PrintCompiled>) -> (r: StrMap<Variant>)
    requires
        forall|i: int| 0 <= i < print.variants@.len()
            ==> print_definition.variants@.dom().contains(#[trigger] print.variants@[i]@),
    ensures
        forall|k: Seq<char>| r@.dom().contains(k) <==> exists|i: int| 0 <= i < print.variants@.len() && print.variants@[i]@ == k,
        forall|k: Seq<char>| #[trigger] r@.dom().contains(k) ==> r@[k] == print_definition.variants@[k],
{
    let mut r: StrMap<Variant> = StrMap::new();
    let mut j: usize = 0;
    while j < print.variants.len()
        invariant
            j <= print.variants@.len(),
            forall|i: int| 0 <= i < print.variants@.len()
                ==> print_definition.variants@.dom().contains(#[trigger] print.variants@[i]@),
            forall|k: Seq<char>| r@.dom().contains(k) <==> exists|i: int| 0 <= i < j && print.variants@[i]@ == k,
            forall|k: Seq<char>| #[trigger] r@.dom().contains(k) ==> r@[k] == print_definition.variants@[k],
        decreases print.variants@.len() - j,
    {
        let name = &print.variants[j];
        assert(print_definition.variants@.dom().contains(print.variants@[j as int]@));
        let v = print_definition.variants.get(name.as_str()).unwrap().clone();
        r.insert(name.clone(), v);
        proof {
            assert forall|k: Seq<char>| r@.dom().contains(k) <==> exists|i: int| 0 <= i < j + 1 && print.variants@[i]@ == k by {
                if k == name@ {
                    assert(print.variants@[j as int]@ == k);
                }
            }
        }
        j = j + 1;
    }
    r
}

/// The thumbnail resource of `size` recorded by `meta`, if any.
fn thumbnail_of(meta: &ImageMetadata, size: &ThumbnailSize, resources: &Resources) -> (r: Option<Resource>)
    requires
        meta.variants.entry(*size) matches Some(id) ==> resources.resources@.dom().contains(id@),
    ensures
        match meta.variants.entry(*size) {
            Some(id) => r matches Some(x) && x@ == resources.resources@[id@]@,
            None => r is None,
        },
{
    match meta.variants.get(size) {
        Some(id) => Some(resources.resources.get(id.as_str()).unwrap().clone()),
        None => None,
    }
}

/// The thumbnails of `image`, each with its resource. The image must hold
/// image data, and each of its thumbnails must be a resource.
pub fn get_thumbnails(image: &Resource, resources: &Resources) -> (r: BySize<Resource>)
    requires
        ImageMetadata::from_data(image.resource_data) matches Some(meta)
            && forall|s: ThumbnailSize| #[trigger] meta.variants.entry(s) matches Some(id)
                ==> resources.resources@.dom().contains(id@),
    ensures
        ImageMetadata::from_data(image.resource_data) matches Some(meta) && forall|s: ThumbnailSize|
            match #[trigger] meta.variants.entry(s) {
                Some(id) => r.entry(s) matches Some(x) && x@ == resources.resources@[id@]@,
                None => r.entry(s) is None,
            },
{
    let meta = image.as_data::<ImageMetadata>();
    let r = BySize {
        small: thumbnail_of(meta, &ThumbnailSize::Small, resources),
        medium: thumbnail_of(meta, &ThumbnailSize::Medium, resources),
        large: thumbnail_of(meta, &ThumbnailSize::Large, resources),
        huge: thumbnail_of(meta, &ThumbnailSize::Huge, resources),
    };
    assert forall|s: ThumbnailSize|
        match #[trigger] meta.variants.entry(s) {
            Some(id) => r.entry(s) matches Some(x) && x@ == resources.resources@[id@]@,
            None => r.entry(s) is None,
        } by {
        match s {
            ThumbnailSize::Small => {},
            ThumbnailSize::Medium => {},
            ThumbnailSize::Large => {},
            ThumbnailSize::Huge => {},
        }
    }
    r
}

} // verus!

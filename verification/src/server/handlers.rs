//! What the store server answers: a print with its image, variants and
//! thumbnails; print information for a list of ids; and whether a cart was written for the
//! data model version it supports.
use vstd::prelude::*;
use crate::strmap::{StrMap, keys_distinct, lemma_map_of_index};
use crate::text::{push_str, push_decimal, decimal};
use crate::datamodel::datamodel::{Resource, ImageMetadata, ResourceDataType, ThumbnailSize};
use crate::datamodel::print::{PrintCompiled, PrintCompiledView, Variant, all_prints};
use crate::datamodel::api::{PrintApi, InfoVariant, InfoItem, InfoResponse};
use crate::server::fetch::State;
use crate::server::util::{find_print, get_variants, get_thumbnails, first_with_id};

verus! {

/// The state holds what a print names: its image, with every thumbnail the
/// image records, and every variant it offers.
pub open spec fn servable(p: PrintCompiledView, res: Map<Seq<char>, Resource>, variants: Map<Seq<char>, Variant>) -> bool {
    &&& res.dom().contains(p.id)
    &&& ImageMetadata::from_data(res[p.id].resource_data) matches Some(meta)
        && forall|s: ThumbnailSize| #[trigger] meta.variants.entry(s) matches Some(id) ==> res.dom().contains(id@)
    &&& forall|i: int| 0 <= i < p.variants.len() ==> variants.dom().contains(#[trigger] p.variants[i])
}

/// Every print of the state is servable.
pub open spec fn state_servable(s: State) -> bool {
    forall|i: int| 0 <= i < all_prints(s.spec_prints().prints.items()).len() ==> servable(
        #[trigger] all_prints(s.spec_prints().prints.items())[i]@, s.spec_resources().resources@, s.spec_prints().variants@)
}

/// A print found by id is one of the prints searched.
proof fn lemma_first_with_id_member(s: Seq<PrintCompiled>, id: Seq<char>)
    ensures
        first_with_id(s, id) matches Some(q) ==> exists|i: int| 0 <= i < s.len() && s[i] == q,
    decreases s.len(),
{
    if s.len() > 0 && s[0].id@ != id {
        lemma_first_with_id_member(s.drop_first(), id);
        if first_with_id(s, id) is Some {
            let q = first_with_id(s, id)->Some_0;
            let i = choose|i: int| 0 <= i < s.drop_first().len() && s.drop_first()[i] == q;
            assert(s[i + 1] == q);
        }
    }
}

/// Whether the state holds what `print` names.
pub fn print_is_servable(print: &PrintCompiled, state: &State) -> (b: bool)
    ensures
        b == servable(print@, state.spec_resources().resources@, state.spec_prints().variants@),
{
    let resources = state.resources();
    let prints = state.prints();
    let mut i: usize = 0;
    while i < print.variants.len()
        invariant
            i <= print.variants@.len(),
            *prints == state.spec_prints(),
            forall|j: int| 0 <= j < i ==> prints.variants@.dom().contains(#[trigger] print@.variants[j]),
        decreases print.variants@.len() - i,
    {
        proof { assert(print@.variants[i as int] == print.variants@[i as int]@); }
        if !prints.variants.contains_key(print.variants[i].as_str()) {
            return false;
        }
        i = i + 1;
    }
    match resources.resources.get(print.id.as_str()) {
        None => false,
        Some(image) => match image.resource_data.to_value::<ImageMetadata>() {
            None => false,
            Some(meta) => {
                let sizes = [ThumbnailSize::Small, ThumbnailSize::Medium, ThumbnailSize::Large, ThumbnailSize::Huge];
                let mut k: usize = 0;
                while k < 4
                    invariant
                        k <= 4,
                        sizes@ == seq![ThumbnailSize::Small, ThumbnailSize::Medium, ThumbnailSize::Large, ThumbnailSize::Huge],
                        *resources == state.spec_resources(),
                        resources.resources@.dom().contains(print.id@),
                        *image == resources.resources@[print.id@],
                        ImageMetadata::from_data(image.resource_data) == Some(*meta),
                        forall|j: int| 0 <= j < i ==> prints.variants@.dom().contains(#[trigger] print@.variants[j]),
                        i == print.variants@.len(),
                        *prints == state.spec_prints(),
                        forall|j: int| 0 <= j < k ==> (#[trigger] meta.variants.entry(sizes@[j]) matches Some(id)
                            ==> resources.resources@.dom().contains(id@)),
                    decreases 4 - k,
                {
                    match meta.variants.get(&sizes[k]) {
                        Some(id) => {
                            if !resources.resources.contains_key(id.as_str()) {
                                proof {
                                    let s = sizes@[k as int];
                                    assert(*image == resources.resources@[print.id@]);
                                    assert(ImageMetadata::from_data(resources.resources@[print.id@].resource_data) == Some(*meta));
                                    assert(meta.variants.entry(s) == Some(*id));
                                    assert(!(meta.variants.entry(s) matches Some(id2) ==> resources.resources@.dom().contains(id2@)));
                                }
                                return false;
                            }
                        },
                        None => {},
                    }
                    k = k + 1;
                }
                proof {
                    assert forall|s: ThumbnailSize| (#[trigger] meta.variants.entry(s) matches Some(id)
                        ==> resources.resources@.dom().contains(id@)) by {
                        match s {
                            ThumbnailSize::Small => { assert(sizes@[0] == s); },
                            ThumbnailSize::Medium => { assert(sizes@[1] == s); },
                            ThumbnailSize::Large => { assert(sizes@[2] == s); },
                            ThumbnailSize::Huge => { assert(sizes@[3] == s); },
                        }
                    }
                }
                true
            },
        },
    }
}

/// A print with its variants, its description, its image and the image's
/// thumbnails.
pub fn print_response(print: &PrintCompiled, state: &State) -> (r: PrintApi)
    requires
        servable(print@, state.spec_resources().resources@, state.spec_prints().variants@),
    ensures
        forall|k: Seq<char>| r.variants@.dom().contains(k) <==> exists|i: int| 0 <= i < print.variants@.len()
            && print.variants@[i]@ == k,
        forall|k: Seq<char>| #[trigger] r.variants@.dom().contains(k) ==> r.variants@[k] == state.spec_prints().variants@[k],
        r.description@ == print.description@,
        r.brief@ == print.brief@,
        r.image@ == state.spec_resources().resources@[print.id@]@,
        ImageMetadata::from_data(r.image.resource_data) matches Some(meta) && forall|s: ThumbnailSize|
            match #[trigger] meta.variants.entry(s) {
                Some(id) => r.thumbnails.entry(s) matches Some(x) && x@ == state.spec_resources().resources@[id@]@,
                None => r.thumbnails.entry(s) is None,
            },
{
    let resources = state.resources();
    let image = resources.resources.get(print.id.as_str()).unwrap().clone();
    proof {
        assert(print@.variants == print.variants.deep_view());
        assert forall|i: int| 0 <= i < print.variants@.len()
            implies state.spec_prints().variants@.dom().contains(#[trigger] print.variants@[i]@) by {
            assert(print@.variants[i] == print.variants@[i]@);
        }
    }
    let thumbnails = get_thumbnails(&image, resources);
    PrintApi {
        variants: get_variants(print, state.prints()),
        description: print.description.clone(),
        brief: print.brief.clone(),
        image,
        thumbnails,
    }
}

/// The size and price of each variant a print offers.
pub open spec fn info_variant(v: Variant) -> InfoVariant {
    InfoVariant { width: v.width, height: v.height, price: v.price.value }
}

/// The ids of the request that are not prints, in order.
pub open spec fn failed_ids(ids: Seq<String>, prints: Seq<PrintCompiled>) -> Seq<Seq<char>>
    decreases ids.len(),
{
    if ids.len() == 0 {
        Seq::empty()
    } else if first_with_id(prints, ids.last()@) is None {
        failed_ids(ids.drop_last(), prints).push(ids.last()@)
    } else {
        failed_ids(ids.drop_last(), prints)
    }
}

/// Whether `id` is one of `ids`.
pub open spec fn requested(ids: Seq<String>, id: Seq<char>) -> bool {
    exists|i: int| 0 <= i < ids.len() && ids[i]@ == id
}

proof fn lemma_requested_push(ids: Seq<String>, s: String, k: Seq<char>)
    ensures
        requested(ids.push(s), k) <==> requested(ids, k) || s@ == k,
{
    let after = ids.push(s);
    if requested(after, k) {
        let i = choose|i: int| 0 <= i < after.len() && after[i]@ == k;
        if i < ids.len() { assert(ids[i] == after[i]); }
    }
    if requested(ids, k) {
        let i = choose|i: int| 0 <= i < ids.len() && ids[i]@ == k;
        assert(after[i] == ids[i]);
    }
    if s@ == k { assert(after[ids.len() as int] == s); }
}

fn info_item(print: &PrintCompiled, state: &State) -> (r: InfoItem)
    requires
        servable(print@, state.spec_resources().resources@, state.spec_prints().variants@),
    ensures
        r.name@ == ImageMetadata::from_data(state.spec_resources().resources@[print.id@].resource_data)->Some_0.name@,
        forall|k: Seq<char>| #[trigger] r.variants@.dom().contains(k) <==> print@.variants.contains(k),
        forall|k: Seq<char>| #[trigger] r.variants@.dom().contains(k)
            ==> r.variants@[k] == info_variant(state.spec_prints().variants@[k]),
{
    let api = print_response(print, state);
    let ghost items = api.variants.items();
    let n = api.variants.len();
    let mut variants: StrMap<InfoVariant> = StrMap::new();
    let mut i: usize = 0;
    while i < n
        invariant
            i <= n == items.len(),
            items == api.variants.items(),
            keys_distinct(items),
            forall|k: Seq<char>| #[trigger] variants@.dom().contains(k) <==> exists|j: int| 0 <= j < i && items[j].0 == k,
            forall|k: Seq<char>| #[trigger] variants@.dom().contains(k) ==> exists|j: int| 0 <= j < i && items[j].0 == k
                && variants@[k] == info_variant(items[j].1),
        decreases n - i,
    {
        let v = api.variants.value_at(i);
        let ghost before = variants@;
        let _ = variants.insert(api.variants.key_at(i).clone(), InfoVariant { width: v.width, height: v.height, price: v.price.value });
        proof {
            assert forall|k: Seq<char>| #[trigger] variants@.dom().contains(k) <==> exists|j: int| 0 <= j < i + 1 && items[j].0 == k by {
                if exists|j: int| 0 <= j < i + 1 && items[j].0 == k {
                    let j = choose|j: int| 0 <= j < i + 1 && items[j].0 == k;
                    if j < i { assert(before.dom().contains(k)); }
                }
            }
            assert forall|k: Seq<char>| #[trigger] variants@.dom().contains(k) implies exists|j: int| 0 <= j < i + 1
                && items[j].0 == k && variants@[k] == info_variant(items[j].1) by {
                if k != items[i as int].0 {
                    assert(before.dom().contains(k));
                }
            }
        }
        i = i + 1;
    }
    proof {
        assert forall|k: Seq<char>| #[trigger] variants@.dom().contains(k) <==> print@.variants.contains(k) by {
            if print@.variants.contains(k) {
                let j = choose|j: int| 0 <= j < print@.variants.len() && print@.variants[j] == k;
                assert(print.variants@[j]@ == k);
            }
            if api.variants@.dom().contains(k) {
                let j = choose|j: int| 0 <= j < print.variants@.len() && print.variants@[j]@ == k;
                assert(print@.variants[j] == k);
            }
        }
        assert forall|k: Seq<char>| variants@.dom().contains(k) <==> api.variants@.dom().contains(k) by {
            if api.variants@.dom().contains(k) {
                let j = choose|j: int| 0 <= j < items.len() && items[j].0 == k;
            }
            if variants@.dom().contains(k) {
                let j = choose|j: int| 0 <= j < n && items[j].0 == k;
                lemma_map_of_index(items, j);
            }
        }
        assert forall|k: Seq<char>| #[trigger] variants@.dom().contains(k)
            implies variants@[k] == info_variant(state.spec_prints().variants@[k]) by {
            let j = choose|j: int| 0 <= j < n && items[j].0 == k && variants@[k] == info_variant(items[j].1);
            lemma_map_of_index(items, j);
        }
    }
    let name = api.image.as_data::<ImageMetadata>().name.clone();
    InfoItem { name, variants }
}

/// The information of each requested print: the ids that are not prints, in
/// the order requested, and for each id that is, the name of its image and
/// the size and price of each of its variants.
pub fn print_info(req_ids: &Vec<String>, state: &State) -> (r: InfoResponse)
    requires
        state_servable(*state),
    ensures
        r.failed@.map_values(|s: String| s@) == failed_ids(req_ids@, all_prints(state.spec_prints().prints.items())),
        forall|k: Seq<char>| #[trigger] r.success@.dom().contains(k) <==> requested(req_ids@, k)
            && first_with_id(all_prints(state.spec_prints().prints.items()), k) is Some,
        forall|k: Seq<char>| #[trigger] r.success@.dom().contains(k) ==> {
            let p = first_with_id(all_prints(state.spec_prints().prints.items()), k)->Some_0;
            &&& r.success@[k].name@ == ImageMetadata::from_data(state.spec_resources().resources@[p.id@].resource_data)->Some_0.name@
            &&& forall|v: Seq<char>| #[trigger] r.success@[k].variants@.dom().contains(v) <==> p@.variants.contains(v)
            &&& forall|v: Seq<char>| #[trigger] r.success@[k].variants@.dom().contains(v)
                ==> r.success@[k].variants@[v] == info_variant(state.spec_prints().variants@[v])
        },
{
    let ghost all = all_prints(state.spec_prints().prints.items());
    let mut failed: Vec<String> = Vec::new();
    let mut success: StrMap<InfoItem> = StrMap::new();
    let mut i: usize = 0;
    assert(req_ids@.take(0) =~= Seq::<String>::empty());
    assert(failed@.map_values(|s: String| s@) =~= Seq::<Seq<char>>::empty());
    while i < req_ids.len()
        invariant
            i <= req_ids@.len(),
            all == all_prints(state.spec_prints().prints.items()),
            state_servable(*state),
            failed@.map_values(|s: String| s@) == failed_ids(req_ids@.take(i as int), all),
            forall|k: Seq<char>| #[trigger] success@.dom().contains(k) <==> requested(req_ids@.take(i as int), k)
                && first_with_id(all, k) is Some,
            forall|k: Seq<char>| #[trigger] success@.dom().contains(k) ==> {
                let p = first_with_id(all, k)->Some_0;
                &&& success@[k].name@ == ImageMetadata::from_data(state.spec_resources().resources@[p.id@].resource_data)->Some_0.name@
                &&& forall|v: Seq<char>| #[trigger] success@[k].variants@.dom().contains(v) <==> p@.variants.contains(v)
                &&& forall|v: Seq<char>| #[trigger] success@[k].variants@.dom().contains(v)
                    ==> success@[k].variants@[v] == info_variant(state.spec_prints().variants@[v])
            },
        decreases req_ids@.len() - i,
    {
        let id = &req_ids[i];
        let ghost before = success@;
        proof {
            assert(req_ids@.take(i + 1) =~= req_ids@.take(i as int).push(*id));
            assert(req_ids@.take(i + 1).drop_last() =~= req_ids@.take(i as int));
            assert(req_ids@.take(i + 1).last() == *id);
        }
        match find_print(id.as_str(), state.prints()) {
            Some(print) => {
                proof {
                    lemma_first_with_id_member(all, id@);
                    let q = first_with_id(all, id@)->Some_0;
                    let j = choose|j: int| 0 <= j < all.len() && all[j] == q;
                    assert(servable(all[j]@, state.spec_resources().resources@, state.spec_prints().variants@));
                    assert(print@ == q@);
                }
                let item = info_item(&print, state);
                let _ = success.insert(id.clone(), item);
                proof {
                    let q = first_with_id(all, id@)->Some_0;
                    assert(print@.variants == q@.variants);
                    assert forall|k: Seq<char>| #[trigger] success@.dom().contains(k) <==> requested(req_ids@.take(i + 1), k)
                        && first_with_id(all, k) is Some by {
                        lemma_requested_push(req_ids@.take(i as int), *id, k);
                    }
                }
            },
            None => {
                failed.push(id.clone());
                proof {
                    assert(failed@.map_values(|s: String| s@) =~= failed_ids(req_ids@.take(i as int), all).push(id@));
                    assert forall|k: Seq<char>| #[trigger] success@.dom().contains(k) <==> requested(req_ids@.take(i + 1), k)
                        && first_with_id(all, k) is Some by {
                        lemma_requested_push(req_ids@.take(i as int), *id, k);
                    }
                }
            },
        }
        i = i + 1;
    }
    assert(req_ids@.take(req_ids@.len() as int) =~= req_ids@);
    InfoResponse { failed, success }
}

/// The reply to a cart written for another data model version than the
/// supported one: its text, or `None` when the versions agree.
pub fn version_mismatch(version: u32, supported: u32) -> (r: Option<String>)
    ensures
        version == supported ==> r is None,
        version != supported ==> (r matches Some(s) && s@ == "INVALID API VERSION\nSupported version: "@
            + decimal(supported as nat)),
{
    if version == supported {
        None
    } else {
        let mut s = String::new();
        push_str(&mut s, "INVALID API VERSION\nSupported version: ");
        push_decimal(&mut s, supported as u64);
        Some(s)
    }
}

} // verus!

//! What the site templates are rendered from: which templates to render,
//! the addresses of resources, the images and the images by category.
use vstd::prelude::*;
use vstd::utf8::encode_utf8;
use crate::strmap::{StrMap, keys_distinct, lemma_map_of_index};
use crate::text::{decimal, push_str, ends_with, is_suffix};
use crate::datamodel::datamodel::{Resource, Resources, ResourceData};
use crate::manager::config::{template_id, template_id_spec};
use crate::datamodel::datamodel::Timestamp;
use crate::clock::{year_of, utc_year, earlier};

verus! {

/// The bytes that URL encoding keeps: ASCII letters, digits, `-`, `.`, `_`, `~`.
pub open spec fn url_safe(b: u8) -> bool {
    (48 <= b <= 57) || (65 <= b <= 90) || (97 <= b <= 122) || b == 45 || b == 46 || b == 95 || b == 126
}

/// An upper-case hexadecimal digit.
pub open spec fn upper_hex_digit(d: nat) -> char {
    if d < 10 {
        decimal(d)[0]
    } else if d == 10 { 'A' } else if d == 11 { 'B' } else if d == 12 { 'C' }
    else if d == 13 { 'D' } else if d == 14 { 'E' } else { 'F' }
}

/// The URL encoding of one byte: itself if it is safe, else `%` and two
/// upper-case hexadecimal digits.
pub open spec fn url_byte(b: u8) -> Seq<char> {
    if url_safe(b) {
        seq![b as char]
    } else {
        seq!['%', upper_hex_digit((b / 16) as nat), upper_hex_digit((b % 16) as nat)]
    }
}

/// The URL encoding of a byte string.
pub open spec fn url_bytes(bs: Seq<u8>) -> Seq<char>
    decreases bs.len(),
{
    if bs.len() == 0 {
        Seq::empty()
    } else {
        url_bytes(bs.drop_last()) + url_byte(bs.last())
    }
}

/// The URL encoding of text: of its UTF-8 bytes.
pub open spec fn url_encoded(s: Seq<char>) -> Seq<char> {
    url_bytes(encode_utf8(s))
}

/// `urlencoding::encode`: percent-encodes every UTF-8 byte of `s` but ASCII
/// letters, digits and `-`, `_`, `.`, `~`, with upper-case hexadecimal digits.
#[verifier::external_body]
pub(crate) fn url_encode(s: &str) -> (r: String)
    ensures
        r@ == url_encoded(s@),
{
    urlencoding::encode(s).into_owned()
}

/// The address of the store page of an image: `/store/print/` and the
/// encoded image name.
pub fn resource_to_print_url(resource: &Resource) -> (r: String)
    requires
        resource.resource_data is Image,
    ensures
        r@ == "/store/print/"@ + url_encoded(resource.resource_data->Image_0.name@),
{
    let name = match &resource.resource_data {
        ResourceData::Image(m) => url_encode(m.name.as_str()),
        _ => String::new(),
    };
    let mut s = String::new();
    push_str(&mut s, "/store/print/");
    push_str(&mut s, name.as_str());
    s
}

/// The address of a file: each component of its path relative to the root
/// encoded and preceded by `/`.
pub open spec fn components_url(cs: Seq<String>) -> Seq<char>
    decreases cs.len(),
{
    if cs.len() == 0 {
        Seq::empty()
    } else {
        components_url(cs.drop_last()) + seq!['/'] + url_encoded(cs.last()@)
    }
}

/// The address of a file from the components of its path relative to the
/// root.
pub fn resource_to_url(components: &Vec<String>) -> (r: String)
    ensures
        r@ == components_url(components@),
{
    let mut s = String::new();
    let mut i: usize = 0;
    assert(components@.take(0) =~= Seq::<String>::empty());
    while i < components.len()
        invariant
            i <= components@.len(),
            s@ == components_url(components@.take(i as int)),
        decreases components@.len() - i,
    {
        push_str(&mut s, "/");
        let e = url_encode(components[i].as_str());
        push_str(&mut s, e.as_str());
        proof {
            reveal_strlit("/");
            assert(components@.take(i + 1).drop_last() =~= components@.take(i as int));
        }
        i = i + 1;
    }
    assert(components@.take(components@.len() as int) =~= components@);
    s
}

/// A template is rendered unless it is a `.jinja2` include or its output is
/// already a recorded resource.
pub open spec fn renders(name: Seq<char>, res: Map<Seq<char>, Resource>) -> bool {
    !is_suffix(".jinja2"@, name) && !res.dom().contains(template_id_spec(name))
}

/// The templates to render, in the order given.
pub fn templates_to_render(names: &Vec<String>, resources: &Resources) -> (r: Vec<String>)
    ensures
        r@.map_values(|s: String| s@) == names@.map_values(|s: String| s@).filter(
            |n: Seq<char>| renders(n, resources.resources@)),
{
    let ghost ns = names@.map_values(|s: String| s@);
    let ghost keep = |n: Seq<char>| renders(n, resources.resources@);
    let mut r: Vec<String> = Vec::new();
    let mut i: usize = 0;
    assert(ns.take(0).filter(keep) =~= Seq::<Seq<char>>::empty());
    assert(r@.map_values(|s: String| s@) =~= Seq::<Seq<char>>::empty());
    while i < names.len()
        invariant
            i <= names@.len(),
            ns == names@.map_values(|s: String| s@),
            keep == (|n: Seq<char>| renders(n, resources.resources@)),
            r@.map_values(|s: String| s@) == ns.take(i as int).filter(keep),
        decreases names@.len() - i,
    {
        let name = &names[i];
        let id = template_id(name.as_str());
        let render = !ends_with(name.as_str(), ".jinja2") && !resources.resources.contains_key(id.as_str());
        proof {
            assert(ns.take(i + 1) =~= ns.take(i as int).push(name@));
            ns.take(i as int).lemma_filter_push(name@, keep);
        }
        if render {
            r.push(name.clone());
            assert(r@.map_values(|s: String| s@) =~= ns.take(i as int).filter(keep).push(name@));
        } else {
            assert(r@.map_values(|s: String| s@) =~= ns.take(i as int).filter(keep));
        }
        i = i + 1;
    }
    assert(ns.take(names@.len() as int) =~= ns);
    r
}

/// The images among the entries, in order.
pub open spec fn images_of(items: Seq<(Seq<char>, Resource)>) -> Seq<Resource>
    decreases items.len(),
{
    if items.len() == 0 {
        Seq::empty()
    } else if items.last().1.resource_data is Image {
        images_of(items.drop_last()).push(items.last().1)
    } else {
        images_of(items.drop_last())
    }
}

/// The image resources, in order.
pub fn image_resources<'a>(resources: &'a Resources) -> (r: Vec<&'a Resource>)
    ensures
        r@.map_values(|x: &Resource| *x) == images_of(resources.resources.items()),
{
    let ghost items = resources.resources.items();
    let n = resources.resources.len();
    let mut r: Vec<&'a Resource> = Vec::new();
    let mut i: usize = 0;
    assert(items.take(0) =~= Seq::<(Seq<char>, Resource)>::empty());
    assert(r@.map_values(|x: &Resource| *x) =~= Seq::<Resource>::empty());
    while i < n
        invariant
            i <= n == items.len(),
            items == resources.resources.items(),
            r@.map_values(|x: &Resource| *x) == images_of(items.take(i as int)),
        decreases n - i,
    {
        let x = resources.resources.value_at(i);
        proof { assert(items.take(i + 1).drop_last() =~= items.take(i as int)); }
        match &x.resource_data {
            ResourceData::Image(_) => {
                r.push(x);
                assert(r@.map_values(|x: &Resource| *x) =~= images_of(items.take(i as int)).push(*x));
            },
            _ => {},
        }
        i = i + 1;
    }
    assert(items.take(n as int) =~= items);
    r
}

/// The resources filed under the listed ids, in order, skipping ids that
/// are not resources.
pub open spec fn present_resources(ids: Seq<String>, m: Map<Seq<char>, Resource>) -> Seq<Resource>
    decreases ids.len(),
{
    if ids.len() == 0 {
        Seq::empty()
    } else if m.dom().contains(ids.last()@) {
        present_resources(ids.drop_last(), m).push(m[ids.last()@])
    } else {
        present_resources(ids.drop_last(), m)
    }
}

fn resources_of<'a>(ids: &Vec<String>, resources: &'a Resources) -> (r: Vec<&'a Resource>)
    ensures
        r@.map_values(|x: &Resource| *x) == present_resources(ids@, resources.resources@),
{
    let mut r: Vec<&'a Resource> = Vec::new();
    let mut i: usize = 0;
    assert(ids@.take(0) =~= Seq::<String>::empty());
    assert(r@.map_values(|x: &Resource| *x) =~= Seq::<Resource>::empty());
    while i < ids.len()
        invariant
            i <= ids@.len(),
            r@.map_values(|x: &Resource| *x) == present_resources(ids@.take(i as int), resources.resources@),
        decreases ids@.len() - i,
    {
        proof { assert(ids@.take(i + 1).drop_last() =~= ids@.take(i as int)); }
        match resources.resources.get(ids[i].as_str()) {
            Some(x) => {
                r.push(x);
                assert(r@.map_values(|x: &Resource| *x) =~= present_resources(ids@.take(i as int), resources.resources@).push(*x));
            },
            None => {},
        }
        i = i + 1;
    }
    assert(ids@.take(ids@.len() as int) =~= ids@);
    r
}

/// Each category with the resources of its listed ids that exist, in order;
/// categories with none are left out.
pub fn sort_by_categories<'a>(resources: &'a Resources, categories: &StrMap<Vec<String>>) -> (r: StrMap<Vec<&'a Resource>>)
    ensures
        forall|k: Seq<char>| #[trigger] r@.dom().contains(k) <==> categories@.dom().contains(k)
            && present_resources(categories@[k]@, resources.resources@).len() > 0,
        forall|k: Seq<char>| #[trigger] r@.dom().contains(k) ==> r@[k]@.map_values(|x: &Resource| *x)
            == present_resources(categories@[k]@, resources.resources@),
{
    let ghost items = categories.items();
    let n = categories.len();
    let mut r: StrMap<Vec<&'a Resource>> = StrMap::new();
    let mut i: usize = 0;
    while i < n
        invariant
            i <= n == items.len(),
            items == categories.items(),
            keys_distinct(items),
            forall|k: Seq<char>| #[trigger] r@.dom().contains(k) <==> exists|j: int| 0 <= j < i && items[j].0 == k
                && present_resources(items[j].1@, resources.resources@).len() > 0,
            forall|k: Seq<char>| #[trigger] r@.dom().contains(k) ==> exists|j: int| 0 <= j < i && items[j].0 == k
                && r@[k]@.map_values(|x: &Resource| *x) == present_resources(items[j].1@, resources.resources@),
        decreases n - i,
    {
        let found = resources_of(categories.value_at(i), resources);
        if found.len() > 0 {
            let ghost before = r@;
            let k = categories.key_at(i).clone();
            proof {
                if before.dom().contains(k@) {
                    let j = choose|j: int| 0 <= j < i && items[j].0 == k@
                        && present_resources(items[j].1@, resources.resources@).len() > 0;
                    assert(items[j].0 == items[i as int].0);
                }
            }
            let _ = r.insert(k, found);
            proof {
                assert forall|k2: Seq<char>| #[trigger] r@.dom().contains(k2) implies exists|j: int| 0 <= j < i + 1
                    && items[j].0 == k2 && r@[k2]@.map_values(|x: &Resource| *x)
                    == present_resources(items[j].1@, resources.resources@) by {
                    if k2 != items[i as int].0 {
                        assert(before.dom().contains(k2));
                    }
                }
            }
        }
        i = i + 1;
    }
    proof {
        assert forall|k: Seq<char>| #[trigger] r@.dom().contains(k) implies r@[k]@.map_values(|x: &Resource| *x)
            == present_resources(categories@[k]@, resources.resources@) by {
            let j = choose|j: int| 0 <= j < n && items[j].0 == k
                && r@[k]@.map_values(|x: &Resource| *x) == present_resources(items[j].1@, resources.resources@);
            lemma_map_of_index(items, j);
        }
        assert forall|k: Seq<char>| #[trigger] r@.dom().contains(k) <==> categories@.dom().contains(k)
            && present_resources(categories@[k]@, resources.resources@).len() > 0 by {
            if categories@.dom().contains(k) {
                let j = choose|j: int| 0 <= j < items.len() && items[j].0 == k;
                lemma_map_of_index(items, j);
            }
            if r@.dom().contains(k) {
                let j = choose|j: int| 0 <= j < n && items[j].0 == k
                    && present_resources(items[j].1@, resources.resources@).len() > 0;
                lemma_map_of_index(items, j);
            }
        }
    }
    r
}

/// The date of an image resource.
pub open spec fn date_of(r: Resource) -> Timestamp {
    match r.resource_data {
        ResourceData::Image(m) => m.date,
        _ => Timestamp { secs: 0, nanos: 0 },
    }
}

/// The images among the entries whose calendar year is known, each with its
/// year, in order.
pub open spec fn year_entries(items: Seq<(Seq<char>, Resource)>) -> Seq<(i32, Resource)>
    decreases items.len(),
{
    if items.len() == 0 {
        Seq::empty()
    } else {
        let r = items.last().1;
        let rest = year_entries(items.drop_last());
        match r.resource_data {
            ResourceData::Image(m) => match utc_year(m.date.secs, m.date.nanos) {
                Some(y) => rest.push((y, r)),
                None => rest,
            },
            _ => rest,
        }
    }
}

/// `a` may come before `b`: a later year, or the same year and a date not
/// after `b`'s.
pub open spec fn goes_before(a: (i32, Resource), b: (i32, Resource)) -> bool {
    a.0 > b.0 || (a.0 == b.0 && !earlier(date_of(b.1), date_of(a.1)))
}

/// Years from the latest down, each year's images from the earliest.
pub open spec fn year_sorted(s: Seq<(i32, Resource)>) -> bool {
    forall|i: int, j: int| 0 <= i < j < s.len() ==> goes_before(#[trigger] s[i], #[trigger] s[j])
}

/// The images of groups, each with its group's year, group after group.
pub open spec fn flat_groups(g: Seq<(i32, Seq<Resource>)>) -> Seq<(i32, Resource)>
    decreases g.len(),
{
    if g.len() == 0 {
        Seq::empty()
    } else {
        flat_groups(g.drop_last()) + g.last().1.map_values(|r: Resource| (g.last().0, r))
    }
}

/// Groups by their abstract values.
pub open spec fn groups_view(g: Seq<(i32, Vec<&Resource>)>) -> Seq<(i32, Seq<Resource>)> {
    g.map_values(|p: (i32, Vec<&Resource>)| (p.0, p.1@.map_values(|x: &Resource| *x)))
}

spec fn entry_pairs(s: Seq<(i32, Timestamp, &Resource)>) -> Seq<(i32, Resource)> {
    s.map_values(|e: (i32, Timestamp, &Resource)| (e.0, *e.2))
}

fn goes_before_exec(a: &(i32, Timestamp, &Resource), b: &(i32, Timestamp, &Resource)) -> (r: bool)
    requires
        a.1 == date_of(*a.2),
        b.1 == date_of(*b.2),
    ensures
        r == goes_before((a.0, *a.2), (b.0, *b.2)),
{
    a.0 > b.0 || (a.0 == b.0 && !(b.1.secs < a.1.secs || (b.1.secs == a.1.secs && b.1.nanos < a.1.nanos)))
}

/// The images of the gallery grouped by year, the latest year first, each
/// year's images from the earliest; images whose year cannot be told are
/// left out. Every group is non-empty, the years strictly decrease, and the
/// groups hold exactly the images with a known year.
pub fn sort_by_years<'a>(resources: &'a Resources) -> (r: Vec<(i32, Vec<&'a Resource>)>)
    ensures
        flat_groups(groups_view(r@)).to_multiset() == year_entries(resources.resources.items()).to_multiset(),
        year_sorted(flat_groups(groups_view(r@))),
        forall|g: int| 0 <= g < r@.len() ==> #[trigger] r@[g].1@.len() > 0,
        forall|g: int, h: int| 0 <= g < h < r@.len() ==> #[trigger] r@[g].0 > #[trigger] r@[h].0,
{
    let ghost items = resources.resources.items();
    let n = resources.resources.len();
    let mut entries: Vec<(i32, Timestamp, &'a Resource)> = Vec::new();
    let mut i: usize = 0;
    assert(items.take(0) =~= Seq::<(Seq<char>, Resource)>::empty());
    assert(entry_pairs(entries@) =~= Seq::<(i32, Resource)>::empty());
    while i < n
        invariant
            i <= n == items.len(),
            items == resources.resources.items(),
            entry_pairs(entries@) == year_entries(items.take(i as int)),
            forall|k: int| 0 <= k < entries@.len() ==> (#[trigger] entries@[k]).1 == date_of(*entries@[k].2),
        decreases n - i,
    {
        let x = resources.resources.value_at(i);
        proof { assert(items.take(i + 1).drop_last() =~= items.take(i as int)); }
        match &x.resource_data {
            ResourceData::Image(m) => {
                match year_of(m.date) {
                    Some(y) => {
                        entries.push((y, m.date, x));
                        assert(entry_pairs(entries@) =~= year_entries(items.take(i as int)).push((y, *x)));
                    },
                    None => {},
                }
            },
            _ => {},
        }
        i = i + 1;
    }
    assert(items.take(n as int) =~= items);
    let ghost all = entry_pairs(entries@);

    let mut sorted: Vec<(i32, Timestamp, &'a Resource)> = Vec::new();
    let mut k: usize = 0;
    assert(all.take(0) =~= Seq::<(i32, Resource)>::empty());
    assert(entry_pairs(sorted@) =~= Seq::<(i32, Resource)>::empty());
    while k < entries.len()
        invariant
            k <= entries@.len(),
            all == entry_pairs(entries@),
            forall|q: int| 0 <= q < entries@.len() ==> (#[trigger] entries@[q]).1 == date_of(*entries@[q].2),
            forall|q: int| 0 <= q < sorted@.len() ==> (#[trigger] sorted@[q]).1 == date_of(*sorted@[q].2),
            year_sorted(entry_pairs(sorted@)),
            entry_pairs(sorted@).to_multiset() == all.take(k as int).to_multiset(),
        decreases entries@.len() - k,
    {
        let e = entries[k];
        let ghost ep = (e.0, *e.2);
        let ghost before = entry_pairs(sorted@);
        let mut p: usize = 0;
        while p < sorted.len() && goes_before_exec(&sorted[p], &e)
            invariant
                p <= sorted@.len(),
                e.1 == date_of(*e.2),
                forall|q: int| 0 <= q < sorted@.len() ==> (#[trigger] sorted@[q]).1 == date_of(*sorted@[q].2),
                forall|q: int| 0 <= q < p ==> goes_before(#[trigger] entry_pairs(sorted@)[q], ep),
                ep == (e.0, *e.2),
            decreases sorted@.len() - p,
        {
            p = p + 1;
        }
        proof {
            // Everything from position p on goes after the new entry.
            if p < sorted@.len() {
                let sp = entry_pairs(sorted@);
                assert(!goes_before(sp[p as int], ep));
                assert forall|q: int| p <= q < sp.len() implies goes_before(ep, #[trigger] sp[q]) by {
                    if q > p {
                        assert(goes_before(sp[p as int], sp[q]));
                    }
                }
            }
        }
        sorted.insert(p, e);
        proof {
            let sp2 = entry_pairs(sorted@);
            assert(sp2 =~= before.insert(p as int, ep));
            vstd::seq_lib::to_multiset_insert(before, p as int, ep);
            assert(all.take(k + 1) =~= all.take(k as int).push(ep));
            vstd::seq_lib::to_multiset_build(all.take(k as int), ep);
            assert forall|a: int, b: int| 0 <= a < b < sp2.len() implies goes_before(#[trigger] sp2[a], #[trigger] sp2[b]) by {
                if a < p && b < p {
                    assert(sp2[a] == before[a] && sp2[b] == before[b]);
                } else if a < p && b == p {
                    assert(sp2[a] == before[a]);
                } else if a < p && b > p {
                    assert(sp2[a] == before[a] && sp2[b] == before[b - 1]);
                    assert(goes_before(before[a], ep));
                    assert(goes_before(ep, before[b - 1]));
                } else if a == p {
                    assert(sp2[b] == before[b - 1]);
                } else {
                    assert(sp2[a] == before[a - 1] && sp2[b] == before[b - 1]);
                }
            }
            assert forall|q: int| 0 <= q < sorted@.len() implies (#[trigger] sorted@[q]).1 == date_of(*sorted@[q].2) by {
                if q < p { } else if q == p { } else { }
            }
        }
        k = k + 1;
    }
    assert(all.take(entries@.len() as int) =~= all);
    let ghost sv = entry_pairs(sorted@);

    let mut groups: Vec<(i32, Vec<&'a Resource>)> = Vec::new();
    let mut cur: Vec<&'a Resource> = Vec::new();
    let mut cur_y: i32 = 0;
    let mut j: usize = 0;
    assert(sv.take(0) =~= Seq::<(i32, Resource)>::empty());
    assert(flat_groups(groups_view(groups@)) + cur@.map_values(|x: &Resource| (cur_y, *x)) =~= sv.take(0));
    while j < sorted.len()
        invariant
            j <= sorted@.len(),
            sv == entry_pairs(sorted@),
            year_sorted(sv),
            flat_groups(groups_view(groups@)) + cur@.map_values(|x: &Resource| (cur_y, *x)) == sv.take(j as int),
            forall|g: int| 0 <= g < groups@.len() ==> #[trigger] groups@[g].1@.len() > 0,
            forall|g: int, h: int| 0 <= g < h < groups@.len() ==> #[trigger] groups@[g].0 > #[trigger] groups@[h].0,
            cur@.len() > 0 ==> j > 0 && sv[j - 1].0 == cur_y,
            cur@.len() == 0 ==> groups@.len() == 0 && j == 0,
            groups@.len() > 0 ==> groups@[groups@.len() - 1].0 > cur_y,
        decreases sorted@.len() - j,
    {
        let (y, _, r) = sorted[j];
        proof {
            assert(sv[j as int] == (y, *r));
            if j > 0 {
                assert(goes_before(sv[j - 1], sv[j as int]));
            }
        }
        let ghost old_groups = groups@;
        let ghost old_cur = cur@;
        let ghost old_y = cur_y;
        if cur.len() > 0 && y != cur_y {
            let mut fresh: Vec<&'a Resource> = Vec::new();
            std::mem::swap(&mut fresh, &mut cur);
            groups.push((cur_y, fresh));
            proof {
                assert(groups_view(groups@) =~= groups_view(old_groups).push((old_y, old_cur.map_values(|x: &Resource| *x))));
                assert(flat_groups(groups_view(groups@)).drop_last() == flat_groups(groups_view(groups@)).drop_last());
                assert(groups_view(groups@).drop_last() =~= groups_view(old_groups));
                assert(old_cur.map_values(|x: &Resource| (old_y, *x))
                    =~= old_cur.map_values(|x: &Resource| *x).map_values(|r: Resource| (old_y, r)));
                assert forall|g: int, h: int| 0 <= g < h < groups@.len() implies #[trigger] groups@[g].0 > #[trigger] groups@[h].0 by {
                    if h == groups@.len() - 1 && g < h {
                        assert(groups@[g] == old_groups[g]);
                        if g < old_groups.len() - 1 {
                            assert(old_groups[g].0 > old_groups[old_groups.len() - 1].0);
                        }
                    } else {
                        assert(groups@[g] == old_groups[g] && groups@[h] == old_groups[h]);
                    }
                }
            }
        }
        let ghost mid_groups = groups@;
        let ghost mid_cur = cur@;
        let ghost mid_flat = flat_groups(groups_view(groups@)) + cur@.map_values(|x: &Resource| (cur_y, *x));
        assert(mid_flat == sv.take(j as int));
        cur_y = y;
        cur.push(r);
        proof {
            assert(mid_cur.len() == 0 || y == old_y);
            assert(cur@.map_values(|x: &Resource| (cur_y, *x)) =~= mid_cur.map_values(|x: &Resource| (y, *x)).push((y, *r)));
            assert(sv.take(j + 1) =~= sv.take(j as int).push(sv[j as int]));
            assert(flat_groups(groups_view(groups@)) + cur@.map_values(|x: &Resource| (cur_y, *x)) =~= sv.take(j + 1));
            if groups@.len() > 0 {
                assert(groups@[groups@.len() - 1].0 > y);
            }
        }
        j = j + 1;
    }
    if cur.len() > 0 {
        let ghost old_groups = groups@;
        let ghost old_cur = cur@;
        groups.push((cur_y, cur));
        proof {
            assert(groups_view(groups@).drop_last() =~= groups_view(old_groups));
            assert(old_cur.map_values(|x: &Resource| (cur_y, *x))
                =~= old_cur.map_values(|x: &Resource| *x).map_values(|r: Resource| (cur_y, r)));
            assert forall|g: int, h: int| 0 <= g < h < groups@.len() implies #[trigger] groups@[g].0 > #[trigger] groups@[h].0 by {
                if h == groups@.len() - 1 {
                    assert(groups@[g] == old_groups[g]);
                    if g < old_groups.len() - 1 {
                        assert(old_groups[g].0 > old_groups[old_groups.len() - 1].0);
                    }
                } else {
                    assert(groups@[g] == old_groups[g] && groups@[h] == old_groups[h]);
                }
            }
        }
    } else {
        proof {
            assert(cur@.map_values(|x: &Resource| (cur_y, *x)) =~= Seq::<(i32, Resource)>::empty());
        }
    }
    assert(sv.take(sorted@.len() as int) =~= sv);
    groups
}

} // verus!

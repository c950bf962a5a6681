//! The request that opens a payment session for a validated cart: the line
//! items with the store's fixed shipping terms, form-urlencoded with
//! bracketed paths. Objects are written with their keys in sorted order.
use vstd::prelude::*;
use crate::text::{decimal, signed_decimal, push_str};
use crate::urlencode::ser::{FormValue, Pairs, flatten, flatten_items, flatten_entries, field_path, index_path, to_string, form_encode};
use crate::urlencode::error::{UrlEncodeError, ErrorView};
use crate::server::store::{StripeLineItem, LineView};

verus! {

/// Pairs that serialized without error.
pub open spec fn ok(p: Pairs) -> Result<Pairs, ErrorView> {
    Ok(p)
}

/// One pair: a path and its text.
pub open spec fn leaf(p: Seq<char>, text: Seq<char>) -> Pairs {
    seq![(p, text)]
}

/// The countries the store ships to.
pub open spec fn allowed_countries() -> Seq<Seq<char>> {
    seq![
        "AT"@, "BE"@, "BG"@, "HR"@, "CY"@, "CZ"@, "DK"@, "EE"@, "FI"@, "FR"@, "DE"@, "GR"@, "HU"@, "IE"@, "IT"@, "LV"@,
        "LT"@, "LU"@, "MT"@, "NL"@, "PL"@, "PT"@, "RO"@, "SK"@, "SI"@, "ES"@, "SE"@, "GB"@, "NO"@, "CA"@, "US"@
    ]
}

/// A list of texts at `p`, element `i` at `p[i]`.
pub open spec fn text_list_pairs(texts: Seq<Seq<char>>, p: Seq<char>) -> Pairs
    decreases texts.len(),
{
    if texts.len() == 0 {
        Seq::empty()
    } else {
        text_list_pairs(texts.drop_last(), p) + leaf(index_path(p, (texts.len() - 1) as nat), texts.last())
    }
}

/// The pairs of a line item placed at `p`.
pub open spec fn line_pairs(l: LineView, p: Seq<char>) -> Pairs {
    let price = field_path(p, "price_data"@);
    let product = field_path(price, "product_data"@);
    leaf(field_path(price, "currency"@), l.currency)
        + leaf(field_path(product, "description"@), l.description)
        + text_list_pairs(l.images, field_path(product, "images"@))
        + leaf(field_path(product, "name"@), l.name)
        + leaf(field_path(price, "unit_amount"@), signed_decimal(l.unit_amount as int))
        + leaf(field_path(p, "quantity"@), decimal(l.quantity as nat))
}

/// The pairs of the line items at `p`, line `i` at `p[i]`.
pub open spec fn lines_pairs(ls: Seq<LineView>, p: Seq<char>) -> Pairs
    decreases ls.len(),
{
    if ls.len() == 0 {
        Seq::empty()
    } else {
        lines_pairs(ls.drop_last(), p) + line_pairs(ls.last(), index_path(p, (ls.len() - 1) as nat))
    }
}

/// The pairs of the shipping rate at `p`: free delivery by PostNord in one
/// to seven business days.
pub open spec fn shipping_rate_pairs(p: Seq<char>) -> Pairs {
    let est = field_path(p, "delivery_estimate"@);
    let max = field_path(est, "maximum"@);
    let min = field_path(est, "minimum"@);
    let amount = field_path(p, "fixed_amount"@);
    leaf(field_path(max, "unit"@), "business_day"@)
        + leaf(field_path(max, "value"@), decimal(7))
        + leaf(field_path(min, "unit"@), "business_day"@)
        + leaf(field_path(min, "value"@), decimal(1))
        + leaf(field_path(p, "display_name"@), "PostNord"@)
        + leaf(field_path(amount, "amount"@), decimal(0))
        + leaf(field_path(amount, "currency"@), "Sek"@)
        + leaf(field_path(p, "type"@), "fixed_amount"@)
}

/// The pairs of the whole request for the line items `ls` of a store at
/// `gallery`.
pub open spec fn checkout_pairs(ls: Seq<LineView>, gallery: Seq<char>) -> Pairs {
    let top = Seq::<char>::empty();
    leaf(field_path(top, "allow_promotion_codes"@), "true"@)
        + leaf(field_path(top, "cancel_url"@), gallery + "/store/cancel"@)
        + lines_pairs(ls, field_path(top, "line_items"@))
        + leaf(field_path(top, "mode"@), "payment"@)
        + leaf(field_path(field_path(top, "phone_number_collection"@), "enabled"@), "true"@)
        + text_list_pairs(allowed_countries(), field_path(field_path(top, "shipping_address_collection"@), "allowed_countries"@))
        + shipping_rate_pairs(field_path(index_path(field_path(top, "shipping_options"@), 0), "shipping_rate_data"@))
        + leaf(field_path(top, "success_url"@), gallery + "/store/success"@)
}

fn text(s: &str) -> (r: FormValue)
    ensures
        forall|p: Seq<char>| #[trigger] flatten(r, p) == ok(leaf(p, s@)),
{
    FormValue::Str(s.to_string())
}

fn number(n: u64) -> (r: FormValue)
    ensures
        forall|p: Seq<char>| #[trigger] flatten(r, p) == ok(leaf(p, decimal(n as nat))),
{
    FormValue::UInt(n)
}

fn add_entry(es: &mut Vec<(FormValue, FormValue)>, key: &str, value: FormValue, Ghost(p): Ghost<Seq<char>>, Ghost(vp): Ghost<Pairs>)
    requires
        flatten_entries(old(es)@, p) is Ok,
        flatten(value, field_path(p, key@)) == ok(vp),
    ensures
        flatten_entries(final(es)@, p) == ok(flatten_entries(old(es)@, p)->Ok_0 + vp),
{
    let k = text(key);
    let ghost before = es@;
    es.push((k, value));
    proof {
        assert(es@.drop_last() == before);
        assert(flatten(k, Seq::empty()) == ok(leaf(Seq::empty(), key@)));
    }
}

fn add_item(items: &mut Vec<FormValue>, value: FormValue, Ghost(p): Ghost<Seq<char>>, Ghost(vp): Ghost<Pairs>)
    requires
        flatten_items(old(items)@, p) is Ok,
        flatten(value, index_path(p, old(items)@.len())) == ok(vp),
    ensures
        flatten_items(final(items)@, p) == ok(flatten_items(old(items)@, p)->Ok_0 + vp),
        final(items)@.len() == old(items)@.len() + 1,
{
    let ghost before = items@;
    items.push(value);
    proof {
        assert(items@.drop_last() == before);
    }
}

fn entries(es: Vec<(FormValue, FormValue)>, Ghost(p): Ghost<Seq<char>>) -> (r: FormValue)
    ensures
        flatten(r, p) == flatten_entries(es@, p),
{
    FormValue::Entries(es)
}

fn text_list(texts: &Vec<String>, Ghost(p): Ghost<Seq<char>>) -> (r: FormValue)
    ensures
        flatten(r, p) == ok(text_list_pairs(texts.deep_view(), p)),
{
    let mut items: Vec<FormValue> = Vec::new();
    let mut i: usize = 0;
    assert(texts.deep_view().take(0) =~= Seq::<Seq<char>>::empty());
    while i < texts.len()
        invariant
            i <= texts@.len(),
            items@.len() == i,
            flatten_items(items@, p) == ok(text_list_pairs(texts.deep_view().take(i as int), p)),
        decreases texts@.len() - i,
    {
        let v = text(texts[i].as_str());
        add_item(&mut items, v, Ghost(p), Ghost(leaf(index_path(p, i as nat), texts@[i as int]@)));
        proof {
            let t = texts.deep_view().take(i + 1);
            assert(t.drop_last() =~= texts.deep_view().take(i as int));
            assert(t.last() == texts@[i as int]@);
        }
        i = i + 1;
    }
    assert(texts.deep_view().take(texts@.len() as int) =~= texts.deep_view());
    FormValue::List(items)
}

fn amount(a: i32) -> (r: FormValue)
    ensures
        forall|p: Seq<char>| #[trigger] flatten(r, p) == ok(leaf(p, signed_decimal(a as int))),
{
    if a >= 0 { FormValue::UInt(a as u64) } else { FormValue::Int(a as i64) }
}

fn line_value(l: &StripeLineItem, Ghost(p): Ghost<Seq<char>>) -> (r: FormValue)
    ensures
        flatten(r, p) == ok(line_pairs(l@, p)),
{
    let ghost price_p = field_path(p, "price_data"@);
    let ghost product_p = field_path(price_p, "product_data"@);
    let product_data = &l.price_data.product_data;
    let mut product: Vec<(FormValue, FormValue)> = Vec::new();
    add_entry(&mut product, "description", text(product_data.description.as_str()), Ghost(product_p),
        Ghost(leaf(field_path(product_p, "description"@), product_data.description@)));
    let imgs = text_list(&product_data.images, Ghost(field_path(product_p, "images"@)));
    add_entry(&mut product, "images", imgs, Ghost(product_p),
        Ghost(text_list_pairs(product_data.images.deep_view(), field_path(product_p, "images"@))));
    add_entry(&mut product, "name", text(product_data.name.as_str()), Ghost(product_p),
        Ghost(leaf(field_path(product_p, "name"@), product_data.name@)));
    let product_v = entries(product, Ghost(product_p));

    let mut price: Vec<(FormValue, FormValue)> = Vec::new();
    add_entry(&mut price, "currency", text(l.price_data.currency.as_str()), Ghost(price_p),
        Ghost(leaf(field_path(price_p, "currency"@), l.price_data.currency@)));
    add_entry(&mut price, "product_data", product_v, Ghost(price_p),
        Ghost(leaf(field_path(product_p, "description"@), l@.description)
            + text_list_pairs(l@.images, field_path(product_p, "images"@))
            + leaf(field_path(product_p, "name"@), l@.name)));
    add_entry(&mut price, "unit_amount", amount(l.price_data.unit_amount), Ghost(price_p),
        Ghost(leaf(field_path(price_p, "unit_amount"@), signed_decimal(l.price_data.unit_amount as int))));
    let price_v = entries(price, Ghost(price_p));

    let mut line: Vec<(FormValue, FormValue)> = Vec::new();
    add_entry(&mut line, "price_data", price_v, Ghost(p),
        Ghost(leaf(field_path(price_p, "currency"@), l@.currency)
            + (leaf(field_path(product_p, "description"@), l@.description)
                + text_list_pairs(l@.images, field_path(product_p, "images"@))
                + leaf(field_path(product_p, "name"@), l@.name))
            + leaf(field_path(price_p, "unit_amount"@), signed_decimal(l@.unit_amount as int))));
    add_entry(&mut line, "quantity", number(l.quantity as u64), Ghost(p),
        Ghost(leaf(field_path(p, "quantity"@), decimal(l.quantity as nat))));
    let r = entries(line, Ghost(p));
    proof {
        let a = leaf(field_path(price_p, "currency"@), l@.currency);
        let b = leaf(field_path(product_p, "description"@), l@.description);
        let c = text_list_pairs(l@.images, field_path(product_p, "images"@));
        let d = leaf(field_path(product_p, "name"@), l@.name);
        let e = leaf(field_path(price_p, "unit_amount"@), signed_decimal(l@.unit_amount as int));
        let f = leaf(field_path(p, "quantity"@), decimal(l@.quantity as nat));
        assert(Seq::<(Seq<char>, Seq<char>)>::empty() + (a + (b + c + d) + e) + f =~= a + b + c + d + e + f);
    }
    r
}

fn shipping_rate(Ghost(p): Ghost<Seq<char>>) -> (r: FormValue)
    ensures
        flatten(r, p) == ok(shipping_rate_pairs(p)),
{
    let ghost est_p = field_path(p, "delivery_estimate"@);
    let ghost max_p = field_path(est_p, "maximum"@);
    let ghost min_p = field_path(est_p, "minimum"@);
    let ghost amount_p = field_path(p, "fixed_amount"@);

    let mut max: Vec<(FormValue, FormValue)> = Vec::new();
    add_entry(&mut max, "unit", text("business_day"), Ghost(max_p), Ghost(leaf(field_path(max_p, "unit"@), "business_day"@)));
    add_entry(&mut max, "value", number(7), Ghost(max_p), Ghost(leaf(field_path(max_p, "value"@), decimal(7))));
    let max_v = entries(max, Ghost(max_p));
    let mut min: Vec<(FormValue, FormValue)> = Vec::new();
    add_entry(&mut min, "unit", text("business_day"), Ghost(min_p), Ghost(leaf(field_path(min_p, "unit"@), "business_day"@)));
    add_entry(&mut min, "value", number(1), Ghost(min_p), Ghost(leaf(field_path(min_p, "value"@), decimal(1))));
    let min_v = entries(min, Ghost(min_p));
    let ghost max_pairs = leaf(field_path(max_p, "unit"@), "business_day"@) + leaf(field_path(max_p, "value"@), decimal(7));
    let ghost min_pairs = leaf(field_path(min_p, "unit"@), "business_day"@) + leaf(field_path(min_p, "value"@), decimal(1));
    proof {
        assert(Seq::<(Seq<char>, Seq<char>)>::empty() + leaf(field_path(max_p, "unit"@), "business_day"@) + leaf(field_path(max_p, "value"@), decimal(7)) =~= max_pairs);
        assert(Seq::<(Seq<char>, Seq<char>)>::empty() + leaf(field_path(min_p, "unit"@), "business_day"@) + leaf(field_path(min_p, "value"@), decimal(1)) =~= min_pairs);
    }

    let mut est: Vec<(FormValue, FormValue)> = Vec::new();
    add_entry(&mut est, "maximum", max_v, Ghost(est_p), Ghost(max_pairs));
    add_entry(&mut est, "minimum", min_v, Ghost(est_p), Ghost(min_pairs));
    let est_v = entries(est, Ghost(est_p));

    let mut amt: Vec<(FormValue, FormValue)> = Vec::new();
    add_entry(&mut amt, "amount", number(0), Ghost(amount_p), Ghost(leaf(field_path(amount_p, "amount"@), decimal(0))));
    add_entry(&mut amt, "currency", text("Sek"), Ghost(amount_p), Ghost(leaf(field_path(amount_p, "currency"@), "Sek"@)));
    let amt_v = entries(amt, Ghost(amount_p));
    let ghost amt_pairs = leaf(field_path(amount_p, "amount"@), decimal(0)) + leaf(field_path(amount_p, "currency"@), "Sek"@);
    proof {
        assert(Seq::<(Seq<char>, Seq<char>)>::empty() + leaf(field_path(amount_p, "amount"@), decimal(0)) + leaf(field_path(amount_p, "currency"@), "Sek"@) =~= amt_pairs);
        assert(Seq::<(Seq<char>, Seq<char>)>::empty() + max_pairs + min_pairs =~= max_pairs + min_pairs);
    }

    let mut rate: Vec<(FormValue, FormValue)> = Vec::new();
    add_entry(&mut rate, "delivery_estimate", est_v, Ghost(p), Ghost(max_pairs + min_pairs));
    add_entry(&mut rate, "display_name", text("PostNord"), Ghost(p), Ghost(leaf(field_path(p, "display_name"@), "PostNord"@)));
    add_entry(&mut rate, "fixed_amount", amt_v, Ghost(p), Ghost(amt_pairs));
    add_entry(&mut rate, "type", text("fixed_amount"), Ghost(p), Ghost(leaf(field_path(p, "type"@), "fixed_amount"@)));
    let r = entries(rate, Ghost(p));
    proof {
        assert(Seq::<(Seq<char>, Seq<char>)>::empty() + (max_pairs + min_pairs) + leaf(field_path(p, "display_name"@), "PostNord"@)
            + amt_pairs + leaf(field_path(p, "type"@), "fixed_amount"@) =~= shipping_rate_pairs(p));
    }
    r
}

fn countries(Ghost(p): Ghost<Seq<char>>) -> (r: FormValue)
    ensures
        flatten(r, p) == ok(text_list_pairs(allowed_countries(), p)),
{
    let codes: [&str; 31] = [
        "AT", "BE", "BG", "HR", "CY", "CZ", "DK", "EE", "FI", "FR", "DE", "GR", "HU", "IE", "IT", "LV",
        "LT", "LU", "MT", "NL", "PL", "PT", "RO", "SK", "SI", "ES", "SE", "GB", "NO", "CA", "US",
    ];
    let ghost cs = allowed_countries();
    assert(codes@.map_values(|c: &str| c@) =~= cs);
    let mut items: Vec<FormValue> = Vec::new();
    let mut i: usize = 0;
    assert(cs.take(0) =~= Seq::<Seq<char>>::empty());
    while i < 31
        invariant
            i <= 31,
            cs == allowed_countries(),
            codes@.map_values(|c: &str| c@) == cs,
            items@.len() == i,
            flatten_items(items@, p) == ok(text_list_pairs(cs.take(i as int), p)),
        decreases 31 - i,
    {
        let c = codes[i];
        assert(c@ == cs[i as int]);
        let v = text(c);
        add_item(&mut items, v, Ghost(p), Ghost(leaf(index_path(p, i as nat), cs[i as int])));
        proof {
            assert(cs.take(i + 1).drop_last() =~= cs.take(i as int));
        }
        i = i + 1;
    }
    assert(cs.take(31) =~= cs);
    FormValue::List(items)
}

/// The request for the line items `cart` of a store at `gallery_url`: the
/// line items, payment mode with promotion codes, shipping to the allowed
/// countries at the fixed rate, phone numbers collected, and the success and
/// cancel pages of the store. Objects list their keys in sorted order.
pub fn checkout_payload(cart: &Vec<StripeLineItem>, gallery_url: &str) -> (r: FormValue)
    ensures
        flatten(r, Seq::empty()) == ok(checkout_pairs(cart@.map_values(|l: StripeLineItem| l@), gallery_url@)),
{
    let ghost top = Seq::<char>::empty();
    let ghost lines_p = field_path(top, "line_items"@);
    let ghost ls = cart@.map_values(|l: StripeLineItem| l@);
    let mut lines: Vec<FormValue> = Vec::new();
    let mut i: usize = 0;
    assert(ls.take(0) =~= Seq::<LineView>::empty());
    while i < cart.len()
        invariant
            i <= cart@.len(),
            ls == cart@.map_values(|l: StripeLineItem| l@),
            lines@.len() == i,
            flatten_items(lines@, lines_p) == ok(lines_pairs(ls.take(i as int), lines_p)),
        decreases cart@.len() - i,
    {
        let v = line_value(&cart[i], Ghost(index_path(lines_p, i as nat)));
        add_item(&mut lines, v, Ghost(lines_p), Ghost(line_pairs(cart@[i as int]@, index_path(lines_p, i as nat))));
        proof {
            assert(ls.take(i + 1).drop_last() =~= ls.take(i as int));
            assert(ls.take(i + 1).last() == cart@[i as int]@);
        }
        i = i + 1;
    }
    assert(ls.take(cart@.len() as int) =~= ls);

    let mut cancel = String::new();
    push_str(&mut cancel, gallery_url);
    push_str(&mut cancel, "/store/cancel");
    let mut success = String::new();
    push_str(&mut success, gallery_url);
    push_str(&mut success, "/store/success");

    let ghost phone_p = field_path(top, "phone_number_collection"@);
    let mut phone: Vec<(FormValue, FormValue)> = Vec::new();
    add_entry(&mut phone, "enabled", FormValue::Bool(true), Ghost(phone_p), Ghost(leaf(field_path(phone_p, "enabled"@), "true"@)));
    let phone_v = entries(phone, Ghost(phone_p));

    let ghost ship_p = field_path(top, "shipping_address_collection"@);
    let mut ship: Vec<(FormValue, FormValue)> = Vec::new();
    add_entry(&mut ship, "allowed_countries", countries(Ghost(field_path(ship_p, "allowed_countries"@))), Ghost(ship_p),
        Ghost(text_list_pairs(allowed_countries(), field_path(ship_p, "allowed_countries"@))));
    let ship_v = entries(ship, Ghost(ship_p));

    let ghost opts_p = field_path(top, "shipping_options"@);
    let ghost rate_p = field_path(index_path(opts_p, 0), "shipping_rate_data"@);
    let mut option: Vec<(FormValue, FormValue)> = Vec::new();
    add_entry(&mut option, "shipping_rate_data", shipping_rate(Ghost(rate_p)), Ghost(index_path(opts_p, 0)),
        Ghost(shipping_rate_pairs(rate_p)));
    let option_v = entries(option, Ghost(index_path(opts_p, 0)));
    let mut opts: Vec<FormValue> = Vec::new();
    add_item(&mut opts, option_v, Ghost(opts_p), Ghost(shipping_rate_pairs(rate_p)));

    let mut top_es: Vec<(FormValue, FormValue)> = Vec::new();
    add_entry(&mut top_es, "allow_promotion_codes", FormValue::Bool(true), Ghost(top),
        Ghost(leaf(field_path(top, "allow_promotion_codes"@), "true"@)));
    add_entry(&mut top_es, "cancel_url", text(cancel.as_str()), Ghost(top),
        Ghost(leaf(field_path(top, "cancel_url"@), gallery_url@ + "/store/cancel"@)));
    add_entry(&mut top_es, "line_items", FormValue::List(lines), Ghost(top), Ghost(lines_pairs(ls, lines_p)));
    add_entry(&mut top_es, "mode", text("payment"), Ghost(top), Ghost(leaf(field_path(top, "mode"@), "payment"@)));
    add_entry(&mut top_es, "phone_number_collection", phone_v, Ghost(top),
        Ghost(leaf(field_path(phone_p, "enabled"@), "true"@)));
    add_entry(&mut top_es, "shipping_address_collection", ship_v, Ghost(top),
        Ghost(text_list_pairs(allowed_countries(), field_path(ship_p, "allowed_countries"@))));
    add_entry(&mut top_es, "shipping_options", FormValue::List(opts), Ghost(top), Ghost(shipping_rate_pairs(rate_p)));
    add_entry(&mut top_es, "success_url", text(success.as_str()), Ghost(top),
        Ghost(leaf(field_path(top, "success_url"@), gallery_url@ + "/store/success"@)));
    let r = entries(top_es, Ghost(top));
    proof {
        assert(Seq::<(Seq<char>, Seq<char>)>::empty() + leaf(field_path(phone_p, "enabled"@), "true"@)
            =~= leaf(field_path(phone_p, "enabled"@), "true"@));
        assert(Seq::<(Seq<char>, Seq<char>)>::empty() + text_list_pairs(allowed_countries(), field_path(ship_p, "allowed_countries"@))
            =~= text_list_pairs(allowed_countries(), field_path(ship_p, "allowed_countries"@)));
        assert(Seq::<(Seq<char>, Seq<char>)>::empty() + shipping_rate_pairs(rate_p) =~= shipping_rate_pairs(rate_p));
        assert(Seq::<(Seq<char>, Seq<char>)>::empty() + leaf(field_path(top, "allow_promotion_codes"@), "true"@)
            + leaf(field_path(top, "cancel_url"@), gallery_url@ + "/store/cancel"@)
            + lines_pairs(ls, lines_p)
            + leaf(field_path(top, "mode"@), "payment"@)
            + leaf(field_path(phone_p, "enabled"@), "true"@)
            + text_list_pairs(allowed_countries(), field_path(ship_p, "allowed_countries"@))
            + shipping_rate_pairs(rate_p)
            + leaf(field_path(top, "success_url"@), gallery_url@ + "/store/success"@)
            =~= checkout_pairs(ls, gallery_url@));
    }
    r
}

/// The body of the request that opens a payment session: the payload,
/// form-urlencoded.
pub fn checkout_body(cart: &Vec<StripeLineItem>, gallery_url: &str) -> (r: Result<String, UrlEncodeError>)
    ensures
        r matches Ok(s) && s@ == form_encode(checkout_pairs(cart@.map_values(|l: StripeLineItem| l@), gallery_url@)),
{
    let payload = checkout_payload(cart, gallery_url);
    to_string(&payload)
}

} // verus!

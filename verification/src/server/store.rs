//! Checking a customer's cart against the print offers, and the line items of
//! the payment session it becomes.
use vstd::prelude::*;

use crate::text::{decimal, push_str, push_char, push_decimal, replace_char};
use crate::datamodel::datamodel::{Resource, ImageMetadata, ResourceDataType, ThumbnailSize};
use crate::datamodel::print::{PrintCompiled, PrintDefinition, all_prints};
use crate::datamodel::api::{CheckoutCart, CheckoutItem};
use crate::server::fetch::State;
use crate::server::util::{find_print, first_with_id};

verus! {

/// What the payment service shows of a product.
#[derive(Debug)]
pub struct StripeProductData {
    pub name: String,
    pub description: String,
    pub images: Vec<String>,
}

/// The price of one line of a payment session.
#[derive(Debug)]
pub struct StripePriceData {
    pub currency: String,
    pub product_data: StripeProductData,
    pub unit_amount: i32,
}

/// One line of a payment session.
#[derive(Debug)]
pub struct StripeLineItem {
    pub price_data: StripePriceData,
    pub quantity: u8,
}

/// The abstract value of a line item.
pub struct LineView {
    pub currency: Seq<char>,
    pub name: Seq<char>,
    pub description: Seq<char>,
    pub images: Seq<Seq<char>>,
    pub unit_amount: i32,
    pub quantity: u8,
}

impl View for StripeLineItem {
    type V = LineView;

    open spec fn view(&self) -> LineView {
        LineView {
            currency: self.price_data.currency@,
            name: self.price_data.product_data.name@,
            description: self.price_data.product_data.description@,
            images: self.price_data.product_data.images.deep_view(),
            unit_amount: self.price_data.unit_amount,
            quantity: self.quantity,
        }
    }
}

/// The line identifier a cart must use for a print, variant size and signature.
pub open spec fn cart_line_id(id: Seq<char>, height: u32, width: u32, signature: u8) -> Seq<char> {
    id + decimal(height as nat) + seq!['h'] + decimal(width as nat) + seq!['w'] + decimal(signature as nat) + seq!['s']
}

/// How a signature choice is described, if it is one of the three offered.
pub open spec fn signature_text(signature: u8) -> Option<Seq<char>> {
    if signature == 0 {
        Some("Signature front"@)
    } else if signature == 1 {
        Some("Signature rear"@)
    } else if signature == 2 {
        Some("No signature!"@)
    } else {
        None
    }
}

/// What checking one line of a cart comes to.
pub enum ItemOutcome {
    /// The line is not valid: the cart is refused.
    Rejected,
    /// The offers or the manifest lack something the line needs.
    Panics,
    /// The line is valid and becomes this line item.
    Line(LineView),
}

/// What checking a whole cart comes to.
pub enum CartOutcome {
    Valid(Seq<LineView>),
    Rejected,
    Panics,
}

/// The outcome of checking the cart line `item`, filed under `ident`.
pub open spec fn item_outcome(
    prints: PrintDefinition<PrintCompiled>,
    res: Map<Seq<char>, Resource>,
    gallery_url: Seq<char>,
    ident: Seq<char>,
    item: CheckoutItem,
) -> ItemOutcome {
    match first_with_id(all_prints(prints.prints.items()), item.id@) {
        None => ItemOutcome::Rejected,
        Some(p) => {
            let name = item.variant.name@;
            if !p@.variants.contains(name) {
                ItemOutcome::Rejected
            } else if !prints.variants@.dom().contains(name) {
                ItemOutcome::Panics
            } else {
                let variant = prints.variants@[name];
                if !(item.variant.height == variant.height && item.variant.width == variant.width) {
                    ItemOutcome::Rejected
                } else if !res.dom().contains(item.id@) {
                    ItemOutcome::Rejected
                } else if signature_text(item.variant.signature) is None {
                    ItemOutcome::Rejected
                } else if cart_line_id(item.id@, variant.height, variant.width, item.variant.signature) != ident {
                    ItemOutcome::Rejected
                } else {
                    match ImageMetadata::from_data(res[item.id@].resource_data) {
                        None => ItemOutcome::Panics,
                        Some(meta) => match meta.variants.large {
                            None => ItemOutcome::Panics,
                            Some(large_id) => if !res.dom().contains(large_id@) {
                                ItemOutcome::Panics
                            } else if variant.price.value * 100 > u32::MAX {
                                ItemOutcome::Panics
                            } else {
                                ItemOutcome::Line(LineView {
                                    currency: variant.price.cur@,
                                    name: meta.name@,
                                    description: decimal(variant.width as nat) + "cm x "@ + decimal(variant.height as nat)
                                        + "cm - "@ + signature_text(item.variant.signature)->Some_0,
                                    images: seq![gallery_url + seq!['/'] + replace_char(res[large_id@].path@, ' ', "%20"@)],
                                    unit_amount: ((variant.price.value * 100) as u32) as i32,
                                    quantity: item.quantity,
                                })
                            },
                        },
                    }
                }
            }
        },
    }
}

/// The outcome of checking the cart lines in order: the first line that is
/// not valid decides; if all are valid, their line items in order.
pub open spec fn cart_outcome(
    prints: PrintDefinition<PrintCompiled>,
    res: Map<Seq<char>, Resource>,
    gallery_url: Seq<char>,
    items: Seq<(Seq<char>, CheckoutItem)>,
) -> CartOutcome
    decreases items.len(),
{
    if items.len() == 0 {
        CartOutcome::Valid(Seq::empty())
    } else {
        match cart_outcome(prints, res, gallery_url, items.drop_last()) {
            CartOutcome::Valid(ls) => match item_outcome(prints, res, gallery_url, items.last().0, items.last().1) {
                ItemOutcome::Line(l) => CartOutcome::Valid(ls.push(l)),
                ItemOutcome::Rejected => CartOutcome::Rejected,
                ItemOutcome::Panics => CartOutcome::Panics,
            },
            other => other,
        }
    }
}

/// Every line of a valid cart is filed under the identifier the store gives
/// it (print id, height, `h`, width, `w`, signature, `s`), carries one of the
/// three signature choices the store offers, and becomes a line item of the
/// same quantity that describes the print's size and that choice: 0 is
/// "Signature front", 1 "Signature rear", 2 "No signature!".
pub proof fn law_valid_cart_lines_name_the_signature(
    prints: PrintDefinition<PrintCompiled>,
    res: Map<Seq<char>, Resource>,
    gallery_url: Seq<char>,
    items: Seq<(Seq<char>, CheckoutItem)>,
)
    requires
        cart_outcome(prints, res, gallery_url, items) is Valid,
    ensures
        cart_outcome(prints, res, gallery_url, items)->Valid_0.len() == items.len(),
        forall|i: int| 0 <= i < items.len() ==> {
            let v = (#[trigger] items[i]).1.variant;
            &&& items[i].0 == items[i].1.id@ + decimal(v.height as nat) + "h"@ + decimal(v.width as nat) + "w"@
                + decimal(v.signature as nat) + "s"@
            &&& cart_outcome(prints, res, gallery_url, items)->Valid_0[i].quantity == items[i].1.quantity
            &&& (v.signature == 0 || v.signature == 1 || v.signature == 2)
            &&& cart_outcome(prints, res, gallery_url, items)->Valid_0[i].description
                == decimal(v.width as nat) + "cm x "@ + decimal(v.height as nat) + "cm - "@
                    + (if v.signature == 0 { "Signature front"@ } else if v.signature == 1 { "Signature rear"@ }
                        else { "No signature!"@ })
        },
    decreases items.len(),
{
    reveal_strlit("h");
    reveal_strlit("w");
    reveal_strlit("s");
    if items.len() > 0 {
        let p = items.drop_last();
        law_valid_cart_lines_name_the_signature(prints, res, gallery_url, p);
        let ls = cart_outcome(prints, res, gallery_url, p)->Valid_0;
        let n = items.len() - 1;
        assert(items[n] == items.last());
        assert forall|i: int| 0 <= i < n implies #[trigger] items[i] == p[i] by {}
    }
}

/// Once a prefix of the cart is not valid, longer prefixes come to the same.
proof fn lemma_cart_outcome_settled(
    prints: PrintDefinition<PrintCompiled>,
    res: Map<Seq<char>, Resource>,
    gallery_url: Seq<char>,
    items: Seq<(Seq<char>, CheckoutItem)>,
    k: int,
    j: int,
)
    requires
        0 <= k <= j <= items.len(),
        !(cart_outcome(prints, res, gallery_url, items.take(k)) is Valid),
    ensures
        cart_outcome(prints, res, gallery_url, items.take(j)) == cart_outcome(prints, res, gallery_url, items.take(k)),
    decreases j - k,
{
    if j > k {
        lemma_cart_outcome_settled(prints, res, gallery_url, items, k, j - 1);
        assert(items.take(j).drop_last() =~= items.take(j - 1));
    }
}

/// The description of a signature choice.
fn signature_option(signature: u8) -> (r: Option<&'static str>)
    ensures
        match r {
            Some(t) => signature_text(signature) == Some(t@),
            None => signature_text(signature) is None,
        },
{
    if signature == 0 {
        Some("Signature front")
    } else if signature == 1 {
        Some("Signature rear")
    } else if signature == 2 {
        Some("No signature!")
    } else {
        None
    }
}

/// Whether `names` holds `name`.
fn names_contain(names: &Vec<String>, name: &String) -> (b: bool)
    ensures
        b == names.deep_view().contains(name@),
{
    let mut i: usize = 0;
    while i < names.len()
        invariant
            i <= names@.len(),
            forall|j: int| 0 <= j < i ==> names@[j]@ != name@,
        decreases names@.len() - i,
    {
        if names[i] == *name {
            assert(names.deep_view()[i as int] == name@);
            return true;
        }
        i = i + 1;
    }
    assert forall|j: int| 0 <= j < names.deep_view().len() implies names.deep_view()[j] != name@ by {
        assert(names.deep_view()[j] == names@[j]@);
    }
    false
}

/// Checks one cart line; `None` when the line is not valid.
fn validate_item(state: &State, identifier: &String, v: &CheckoutItem, gallery_url: &str) -> (r: Option<StripeLineItem>)
    requires
        !(item_outcome(state.spec_prints(), state.spec_resources().resources@, gallery_url@, identifier@, *v) is Panics),
    ensures
        match item_outcome(state.spec_prints(), state.spec_resources().resources@, gallery_url@, identifier@, *v) {
            ItemOutcome::Line(l) => r matches Some(x) && x@ == l,
            _ => r is None,
        },
{
    let prints = state.prints();
    let resources = state.resources();
    let print = match find_print(v.id.as_str(), prints) {
        Some(print) => print,
        None => return None,
    };
    let variant_name = &v.variant.name;
    if !names_contain(&print.variants, variant_name) {
        return None;
    }
    let variant = prints.variants.get(variant_name.as_str()).unwrap();
    if !(v.variant.height == variant.height && v.variant.width == variant.width) {
        return None;
    }
    let image = resources.resources.get(v.id.as_str());
    if image.is_none() {
        return None;
    }
    let sign_option = match signature_option(v.variant.signature) {
        Some(s) => s,
        None => return None,
    };
    let mut expected = v.id.clone();
    push_decimal(&mut expected, variant.height as u64);
    push_char(&mut expected, 'h');
    push_decimal(&mut expected, variant.width as u64);
    push_char(&mut expected, 'w');
    push_decimal(&mut expected, v.variant.signature as u64);
    push_char(&mut expected, 's');
    proof {
        assert(expected@ =~= cart_line_id(v.id@, variant.height, variant.width, v.variant.signature));
    }
    if expected != *identifier {
        return None;
    }
    let image = image.unwrap().as_data::<ImageMetadata>();
    let large_id = image.variants.get(&ThumbnailSize::Large).unwrap();
    let large_thumbnail = resources.resources.get(large_id.as_str()).unwrap();

    let mut description = String::new();
    push_decimal(&mut description, variant.width as u64);
    push_str(&mut description, "cm x ");
    push_decimal(&mut description, variant.height as u64);
    push_str(&mut description, "cm - ");
    push_str(&mut description, sign_option);

    let mut image_url = gallery_url.to_string();
    assert(image_url@ == gallery_url@);
    push_char(&mut image_url, '/');
    let url_path = large_thumbnail.url_path();
    push_str(&mut image_url, url_path.as_str());
    let mut images: Vec<String> = Vec::new();
    images.push(image_url);

    let amount = variant.price.value * 100;
    let item = StripeLineItem {
        price_data: StripePriceData {
            currency: variant.price.cur.clone(),
            product_data: StripeProductData { name: image.name.clone(), description, images },
            unit_amount: #[verifier::truncate] (amount as i32),
        },
        quantity: v.quantity,
    };
    proof {
        reveal_strlit("%20");
        assert("%20"@ =~= seq!['%', '2', '0']);
        assert(item.price_data.product_data.description@ =~= decimal(variant.width as nat) + "cm x "@
            + decimal(variant.height as nat) + "cm - "@ + sign_option@);
        assert(item.price_data.product_data.images.deep_view() =~= seq![image_url@]);
        let ghost o = item_outcome(state.spec_prints(), state.spec_resources().resources@, gallery_url@, identifier@, *v);
        assert(o is Line);
        let l = o->Line_0;
        assert(l.currency == item@.currency);
        assert(l.name == item@.name);
        assert(l.description == item@.description);
        let large_spec = ImageMetadata::from_data(state.spec_resources().resources@[v.id@].resource_data)->Some_0.variants.large->Some_0;
        assert(large_spec == *large_id);
        assert(*large_thumbnail == state.spec_resources().resources@[large_spec@]);
        assert(image_url@ == gallery_url@ + seq!['/'] + replace_char(large_thumbnail.path@, ' ', "%20"@));
        assert(l.images =~= item@.images);
        assert(l.unit_amount == item@.unit_amount);
        assert(l.quantity == item@.quantity);
    }
    Some(item)
}

/// Checks a cart against the offers and the manifest. Every line must name a
/// print that offers the chosen variant, with the variant's size, a known
/// signature choice and the identifier the store gives such a line; then
/// the cart becomes one payment line item per cart line, in order. The
/// offers and manifest must hold what valid lines refer to (their variant, an
/// image with a large thumbnail) and prices must not overflow.
pub fn validate_cart(state: &State, cart: CheckoutCart, gallery_url: &str) -> (r: Option<Vec<StripeLineItem>>)
    requires
        !(cart_outcome(state.spec_prints(), state.spec_resources().resources@, gallery_url@, cart.items.items()) is Panics),
    ensures
        match cart_outcome(state.spec_prints(), state.spec_resources().resources@, gallery_url@, cart.items.items()) {
            CartOutcome::Valid(ls) => r matches Some(v) && v@.len() == ls.len()
                && forall|i: int| 0 <= i < ls.len() ==> #[trigger] v@[i]@ == ls[i],
            _ => r is None,
        },
{
    let ghost prints = state.spec_prints();
    let ghost res = state.spec_resources().resources@;
    let ghost items = cart.items.items();
    let mut stripe_cart: Vec<StripeLineItem> = Vec::new();
    let n = cart.items.len();
    let mut i: usize = 0;
    assert(items.take(0) =~= Seq::<(Seq<char>, CheckoutItem)>::empty());
    while i < n
        invariant
            i <= n == items.len(),
            items == cart.items.items(),
            prints == state.spec_prints(),
            res == state.spec_resources().resources@,
            !(cart_outcome(prints, res, gallery_url@, items) is Panics),
            cart_outcome(prints, res, gallery_url@, items.take(i as int)) matches CartOutcome::Valid(ls)
                && stripe_cart@.len() == ls.len()
                && forall|k: int| 0 <= k < ls.len() ==> #[trigger] stripe_cart@[k]@ == ls[k],
        decreases n - i,
    {
        let identifier = cart.items.key_at(i);
        let v = cart.items.value_at(i);
        proof {
            assert(items.take(i + 1).drop_last() =~= items.take(i as int));
            if item_outcome(prints, res, gallery_url@, identifier@, *v) is Panics {
                lemma_cart_outcome_settled(prints, res, gallery_url@, items, i + 1, n as int);
                assert(items.take(n as int) =~= items);
            }
        }
        match validate_item(state, identifier, v, gallery_url) {
            Some(line) => {
                stripe_cart.push(line);
            },
            None => {
                proof {
                    lemma_cart_outcome_settled(prints, res, gallery_url@, items, i + 1, n as int);
                    assert(items.take(n as int) =~= items);
                }
                return None;
            },
        }
        i = i + 1;
    }
    assert(items.take(n as int) =~= items);
    Some(stripe_cart)
}

/// The payment service's reply to opening a checkout session.
#[derive(Debug)]
pub struct StripeSession {
    pub id: String,
    pub object: String,
    pub url: String,
}

impl StripeSession {
    /// The address the customer pays at, when the reply is a checkout session.
    pub fn checkout_url(&self) -> (r: Option<String>)
        ensures
            self.object@ == "checkout.session"@ ==> (r matches Some(u) && u@ == self.url@),
            self.object@ != "checkout.session"@ ==> r is None,
    {
        if crate::text::str_eq(self.object.as_str(), "checkout.session") {
            Some(self.url.clone())
        } else {
            None
        }
    }
}

/// How checking one cart line comes out, without building its line item:
/// rejected, failing on what the offers or manifest lack, or valid.
fn item_kind(state: &State, identifier: &String, v: &CheckoutItem, gallery_url: &str) -> (r: ItemKind)
    ensures
        match item_outcome(state.spec_prints(), state.spec_resources().resources@, gallery_url@, identifier@, *v) {
            ItemOutcome::Rejected => r is Rejected,
            ItemOutcome::Panics => r is Panics,
            ItemOutcome::Line(_) => r is Valid,
        },
{
    let prints = state.prints();
    let resources = state.resources();
    let print = match find_print(v.id.as_str(), prints) {
        Some(print) => print,
        None => return ItemKind::Rejected,
    };
    if !names_contain(&print.variants, &v.variant.name) {
        return ItemKind::Rejected;
    }
    let variant = match prints.variants.get(v.variant.name.as_str()) {
        Some(x) => x,
        None => return ItemKind::Panics,
    };
    if !(v.variant.height == variant.height && v.variant.width == variant.width) {
        return ItemKind::Rejected;
    }
    let image = match resources.resources.get(v.id.as_str()) {
        Some(x) => x,
        None => return ItemKind::Rejected,
    };
    if signature_option(v.variant.signature).is_none() {
        return ItemKind::Rejected;
    }
    let mut expected = v.id.clone();
    push_decimal(&mut expected, variant.height as u64);
    push_char(&mut expected, 'h');
    push_decimal(&mut expected, variant.width as u64);
    push_char(&mut expected, 'w');
    push_decimal(&mut expected, v.variant.signature as u64);
    push_char(&mut expected, 's');
    proof {
        assert(expected@ =~= cart_line_id(v.id@, variant.height, variant.width, v.variant.signature));
    }
    if expected != *identifier {
        return ItemKind::Rejected;
    }
    let meta = match image.resource_data.to_value::<ImageMetadata>() {
        Some(m) => m,
        None => return ItemKind::Panics,
    };
    let large_id = match meta.variants.get(&ThumbnailSize::Large) {
        Some(id) => id,
        None => return ItemKind::Panics,
    };
    if !resources.resources.contains_key(large_id.as_str()) {
        return ItemKind::Panics;
    }
    if variant.price.value > 42949672 {
        return ItemKind::Panics;
    }
    ItemKind::Valid
}

/// How checking a cart line comes out.
#[derive(Debug)]
pub enum ItemKind {
    Rejected,
    Panics,
    Valid,
}

/// Whether checking the cart would meet something the offers or the manifest
/// lack (a variant missing from the table, an image without a large
/// thumbnail) or a price too large, before a line that is not valid: the
/// carts `validate_cart` does not take.
pub fn cart_unserviceable(state: &State, cart: &CheckoutCart, gallery_url: &str) -> (b: bool)
    ensures
        b == (cart_outcome(state.spec_prints(), state.spec_resources().resources@, gallery_url@, cart.items.items()) is Panics),
{
    let ghost prints = state.spec_prints();
    let ghost res = state.spec_resources().resources@;
    let ghost items = cart.items.items();
    let n = cart.items.len();
    let mut i: usize = 0;
    assert(items.take(0) =~= Seq::<(Seq<char>, CheckoutItem)>::empty());
    while i < n
        invariant
            i <= n == items.len(),
            items == cart.items.items(),
            prints == state.spec_prints(),
            res == state.spec_resources().resources@,
            cart_outcome(prints, res, gallery_url@, items.take(i as int)) is Valid,
        decreases n - i,
    {
        proof { assert(items.take(i + 1).drop_last() =~= items.take(i as int)); }
        match item_kind(state, cart.items.key_at(i), cart.items.value_at(i), gallery_url) {
            ItemKind::Valid => {},
            ItemKind::Rejected => {
                proof {
                    lemma_cart_outcome_settled(prints, res, gallery_url@, items, i + 1, n as int);
                    assert(items.take(n as int) =~= items);
                }
                return false;
            },
            ItemKind::Panics => {
                proof {
                    lemma_cart_outcome_settled(prints, res, gallery_url@, items, i + 1, n as int);
                    assert(items.take(n as int) =~= items);
                }
                return true;
            },
        }
        i = i + 1;
    }
    assert(items.take(n as int) =~= items);
    false
}

} // verus!

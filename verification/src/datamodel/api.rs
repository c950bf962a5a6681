//! The shapes of the store server's requests and replies.
use vstd::prelude::*;
use crate::strmap::StrMap;
use crate::datamodel::datamodel::{Resource, BySize};
use crate::datamodel::print::Variant;

verus! {

/// A print with everything a page needs to show it.
#[derive(Debug)]
pub struct PrintApi {
    pub variants: StrMap<Variant>,
    pub description: String,
    pub brief: String,
    pub image: Resource,
    pub thumbnails: BySize<Resource>,
}

/// The size and price of one print variant.
#[derive(PartialEq, Eq, Structural, Clone, Copy, Debug)]
pub struct InfoVariant {
    pub width: u32,
    pub height: u32,
    pub price: u32,
}

/// The name and variants of a print.
#[derive(Debug)]
pub struct InfoItem {
    pub name: String,
    pub variants: StrMap<InfoVariant>,
}

/// The reply to a print information request: the ids not found, and the
/// information of each id found.
#[derive(Debug)]
pub struct InfoResponse {
    pub failed: Vec<String>,
    pub success: StrMap<InfoItem>,
}

/// The variant of a print that a customer chose.
#[derive(Debug)]
pub struct CheckoutVariant {
    pub height: u32,
    pub width: u32,
    pub signature: u8,
    pub name: String,
}

/// One line of a customer's cart.
#[derive(Debug)]
pub struct CheckoutItem {
    pub id: String,
    pub quantity: u8,
    pub variant: CheckoutVariant,
}

/// A customer's cart: line identifiers to lines, and the data model version
/// it was written for.
#[derive(Debug)]
pub struct CheckoutCart {
    pub items: StrMap<CheckoutItem>,
    pub version: u32,
}

} // verus!

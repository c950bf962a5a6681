//! Resource management for a photo gallery: the data model of its manifest,
//! dependency tracking between generated and source resources, the store's
//! cart validation and a bracketed form-urlencoding serializer.
use vstd::prelude::*;

pub mod text;
pub mod strmap;
pub mod clock;
pub mod outside;
pub mod digest;
pub mod datamodel;
pub mod server;
pub mod urlencode;
pub mod manager;

verus! {
} // verus!

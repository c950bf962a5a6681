//! Declarations of outside types that the library carries.
use vstd::prelude::*;

verus! {

/// `serde_urlencoded`'s serialization error.
#[verifier::external_type_specification]
#[verifier::external_body]
pub struct ExUrlencodedError(serde_urlencoded::ser::Error);

} // verus!

use vstd::prelude::*;

verus! {

/// `std::io::Error`, carried through the library's error types as it is.
#[verifier::external_type_specification]
#[verifier::external_body]
pub struct ExIoError(std::io::Error);

} // verus!

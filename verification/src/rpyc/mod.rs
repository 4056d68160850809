pub mod decoder;
pub mod error;

pub use decoder::{RenpyVersion, RpycFile, Slot, RPYC2_MAGIC};
pub use error::RpycError;

use vstd::prelude::*;

verus! {

/// Version banner of the compiled-script module.
pub fn info() -> (r: &'static str)
    ensures
        r@ == "mkrp-rpyc v0.1.0"@,
{
    "mkrp-rpyc v0.1.0"
}

} // verus!

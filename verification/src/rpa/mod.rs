pub mod archive;
pub mod error;
pub mod header;
pub mod pickle;
pub mod repair;
pub mod sorted;
pub mod vfs;
pub mod writer;

pub use error::RpaError;
pub use header::RpaVersion;

use vstd::prelude::*;

verus! {

/// Version banner of the archive module.
pub fn info() -> (r: &'static str)
    ensures
        r@ == "mkrp-rpa v0.1.0"@,
{
    "mkrp-rpa v0.1.0"
}

} // verus!

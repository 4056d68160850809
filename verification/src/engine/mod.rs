pub mod scene;
pub mod script;

use vstd::prelude::*;

verus! {

/// Version banner of the scene and script module.
pub fn info() -> (r: &'static str)
    ensures
        r@ == "mkrp-core v0.1.0"@,
{
    "mkrp-core v0.1.0"
}

} // verus!

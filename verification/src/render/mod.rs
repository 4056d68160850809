pub mod convert;
pub mod display;
pub mod input;
pub mod overlay;
pub mod scaler;

pub use input::HandheldAction;
pub use scaler::TextureScaler;

use vstd::prelude::*;

verus! {

/// Version banner of the rendering module.
pub fn info() -> (r: &'static str)
    ensures
        r@ == "mkrp-render v0.1.0"@,
{
    "mkrp-render v0.1.0"
}

} // verus!

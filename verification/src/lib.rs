//! Interpolation search over sorted slices, with exact interpolation factors.
use vstd::prelude::*;

pub mod factor;
pub mod interpolation_factor;
pub mod numeric;
pub mod interpolation_search;
pub mod text;

pub use factor::Factor;
pub use factor::lerp_index;
pub use interpolation_factor::InterpolationFactor;
pub use interpolation_factor::KeyOrder;
pub use interpolation_search::InterpolationSearch;

verus! {

} // verus!

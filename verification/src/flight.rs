//! Limits of the flight-domain collections.

use vstd::prelude::*;

verus! {

/// Number of city slots kept for the radar map.
pub const MAX_CITIES: usize = 64;

/// Number of aircraft slots in one decoded batch.
pub const MAX_AIRCRAFT: usize = 32;

} // verus!

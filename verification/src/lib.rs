pub mod proto;
pub mod pow;
pub mod transport;
pub mod server;
pub mod client;
mod rng;

use vstd::prelude::*;

verus! {

/// Difficulty a server uses when none is configured explicitly.
pub const DEFAULT_COMPLEXITY: u8 = 4;

} // verus!

pub mod codec;
mod digest;
pub mod header;
pub mod roster;
pub mod session;

use vstd::prelude::*;

verus! {

/// Protocol version carried in every frame this server emits.
pub const VERSION: u8 = 3;

} // verus!

//! Wire status codes.

use vstd::prelude::*;

verus! {

pub const OK: u8 = 0;

pub const MISS: u8 = 1;

pub const TOO_LARGE: u8 = 2;

pub const ERROR: u8 = 3;

} // verus!

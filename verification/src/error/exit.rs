//! Exit codes, mirroring Buzz's CLI discipline.

use vstd::prelude::*;

verus! {

pub const OK: i32 = 0;

pub const INPUT: i32 = 1;

pub const NETWORK: i32 = 2;

pub const AUTH: i32 = 3;

pub const OTHER: i32 = 4;

pub const WRITE_CONFLICT: i32 = 5;

} // verus!

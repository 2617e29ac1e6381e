use vstd::prelude::*;

verus! {

/// Number of fixed-point units in one whole unit (six decimals).
pub const SCALE: u32 = 1_000_000;

/// Price stored as a fixed-point integer with 6 decimals: $1.234567 -> 1_234_567.
#[derive(Debug, Clone, Copy, PartialEq, Eq, PartialOrd, Ord, Hash, Structural)]
pub struct PriceU32(pub u32);

/// Size stored as a fixed-point integer with 6 decimals: 12.345678 -> 12_345_678.
#[derive(Debug, Clone, Copy, PartialEq, Eq, PartialOrd, Ord, Structural)]
pub struct SizeU32(pub u32);

} // verus!

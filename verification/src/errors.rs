//! Error values the core returns instead of panicking.

use vstd::prelude::*;

verus! {

/// The serialized numeric field an error is about.
#[derive(Clone, Copy, Debug, PartialEq, Eq, Structural)]
pub enum Field {
    PoolTick,
    TickLowerIdx,
    TickUpperIdx,
    Liquidity,
    FeeGrowthGlobal0,
    FeeGrowthGlobal1,
    LowerOutside0,
    LowerOutside1,
    UpperOutside0,
    UpperOutside1,
    InsideLast0,
    InsideLast1,
    VolumeUsd,
    FeesUsd,
    SqrtPrice,
}

/// What went wrong while computing over the pool data.
#[derive(Clone, Debug, PartialEq, Eq)]
pub enum CoreError {
    /// A serialized numeric field is malformed; carries the field and its raw text.
    Parse { field: Field, value: String },
    /// A division met a zero divisor.
    DivideByZero,
    /// A quantity does not fit the fixed-width arithmetic.
    Overflow,
}

} // verus!

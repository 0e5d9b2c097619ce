//! The tick-range simulator: replays hourly pool snapshots and accumulates
//! fees and synthetic reserves for the hours whose tick lies inside a
//! requested range.
//!
//! All money-like quantities are 10^18-scaled fixed-point mantissas
//! (`crate::parse::FIXED_SCALE`).

use vstd::prelude::*;

use crate::errors::{CoreError, Field};
use crate::math::mul_div;
use crate::parse::{
    decimal_mantissa, int_str_val, is_decimal_str, parse_fixed, parse_i32, valid_i32_field,
    NumErr, FIXED_SCALE,
};

verus! {

/// An hourly pool snapshot, as the data source delivers it. A missing or
/// unreadable tick is treated as tick zero, not skipped.
#[derive(Debug, Clone)]
pub struct PoolHourData {
    pub period_start_unix: i64,
    pub tick: Option<String>,
    pub volume_usd: String,
    pub fees_usd: String,
    pub sqrt_price: String,
}

/// One emitted row of the replay: the accumulator values right after an
/// in-range hour was folded in. Amounts are 10^18-scaled mantissas.
#[derive(Debug, Clone, Copy, PartialEq, Eq, Structural)]
pub struct SimulationResult {
    pub date: i64,
    pub reserves_token1: u128,
    pub reserves_token2: u128,
    pub accumulated_fees: u128,
}

/// How folding one snapshot fails, at specification level; the executable
/// error additionally carries the raw text of a malformed field.
#[derive(Debug, Clone, Copy, PartialEq, Eq, Structural)]
pub enum StepFailure {
    /// The named field is not a decimal string.
    Malformed(Field),
    /// A mantissa, product or accumulator left 128 bits.
    TooWide,
    /// The snapshot's square-root price is zero, so a reserve is undefined.
    ZeroSqrtPrice,
}

/// The tick of a snapshot: the parsed value, or zero when the field is
/// absent or unreadable.
pub open spec fn snapshot_tick(s: &PoolHourData) -> int {
    match s.tick {
        Option::None => 0,
        Option::Some(t) => if valid_i32_field(t@) {
            int_str_val(t@)
        } else {
            0
        },
    }
}

/// Whether a tick lies inside the requested range; with either bound
/// absent, nothing is in range.
pub open spec fn in_range(tick: int, lower: Option<i32>, upper: Option<i32>) -> bool {
    match (lower, upper) {
        (Option::Some(l), Option::Some(u)) => l <= tick && tick <= u,
        _ => false,
    }
}

/// The raw text of a snapshot field.
pub open spec fn snap_field_text(s: &PoolHourData, f: Field) -> Seq<char> {
    match f {
        Field::VolumeUsd => s.volume_usd@,
        Field::FeesUsd => s.fees_usd@,
        Field::SqrtPrice => s.sqrt_price@,
        _ => Seq::empty(),
    }
}

/// Folds one in-range snapshot into the accumulators `(fees, r1, r2)`:
/// `fees += feesUSD * feeTier`, `r1 += volumeUSD / sqrtPrice`,
/// `r2 += volumeUSD * sqrtPrice`, in fixed-point arithmetic.
pub open spec fn snap_step(s: &PoolHourData, fee_tier: nat, fees: nat, r1: nat, r2: nat) -> Result<
    (nat, nat, nat),
    StepFailure,
> {
    let scale = FIXED_SCALE as nat;
    if !is_decimal_str(s.fees_usd@) {
        Err(StepFailure::Malformed(Field::FeesUsd))
    } else if decimal_mantissa(s.fees_usd@) > u128::MAX {
        Err(StepFailure::TooWide)
    } else {
        let fm = decimal_mantissa(s.fees_usd@);
        let fee_add = fm * fee_tier / scale;
        if fee_add > u128::MAX || fees + fee_add > u128::MAX {
            Err(StepFailure::TooWide)
        } else if !is_decimal_str(s.sqrt_price@) {
            Err(StepFailure::Malformed(Field::SqrtPrice))
        } else if decimal_mantissa(s.sqrt_price@) > u128::MAX {
            Err(StepFailure::TooWide)
        } else if !is_decimal_str(s.volume_usd@) {
            Err(StepFailure::Malformed(Field::VolumeUsd))
        } else if decimal_mantissa(s.volume_usd@) > u128::MAX {
            Err(StepFailure::TooWide)
        } else if decimal_mantissa(s.sqrt_price@) == 0 {
            Err(StepFailure::ZeroSqrtPrice)
        } else {
            let sm = decimal_mantissa(s.sqrt_price@);
            let vm = decimal_mantissa(s.volume_usd@);
            let ra = vm * scale / sm;
            let rb = vm * sm / scale;
            if ra > u128::MAX || r1 + ra > u128::MAX {
                Err(StepFailure::TooWide)
            } else if rb > u128::MAX || r2 + rb > u128::MAX {
                Err(StepFailure::TooWide)
            } else {
                Ok(((fees + fee_add) as nat, (r1 + ra) as nat, (r2 + rb) as nat))
            }
        }
    }
}

/// Replays the snapshots in order from the given accumulators: skips
/// out-of-range hours entirely, folds in-range hours in and emits one
/// entry after each. An error carries the index of the failing snapshot.
pub open spec fn sim_rec(
    snaps: Seq<PoolHourData>,
    lower: Option<i32>,
    upper: Option<i32>,
    fee_tier: nat,
    fees: nat,
    r1: nat,
    r2: nat,
) -> Result<Seq<SimulationResult>, (int, StepFailure)>
    decreases snaps.len(),
{
    if snaps.len() == 0 {
        Ok(Seq::empty())
    } else {
        let s = snaps[0];
        if !in_range(snapshot_tick(&s), lower, upper) {
            match sim_rec(snaps.skip(1), lower, upper, fee_tier, fees, r1, r2) {
                Ok(es) => Ok(es),
                Err((i, k)) => Err((i + 1, k)),
            }
        } else {
            match snap_step(&s, fee_tier, fees, r1, r2) {
                Err(k) => Err((0, k)),
                Ok((fees2, r1n, r2n)) => {
                    let entry = SimulationResult {
                        date: s.period_start_unix,
                        reserves_token1: r1n as u128,
                        reserves_token2: r2n as u128,
                        accumulated_fees: fees2 as u128,
                    };
                    match sim_rec(snaps.skip(1), lower, upper, fee_tier, fees2, r1n, r2n) {
                        Ok(es) => Ok(seq![entry] + es),
                        Err((i, k)) => Err((i + 1, k)),
                    }
                },
            }
        }
    }
}

/// Parses a fixed-point snapshot field, or reports it.
fn parse_snap_field(s: &String, f: Field) -> (r: Result<u128, CoreError>)
    ensures
        r is Ok <==> is_decimal_str(s@) && decimal_mantissa(s@) <= u128::MAX,
        (match r {
            Ok(v) => v == decimal_mantissa(s@),
            Err(e) => if is_decimal_str(s@) {
                e == CoreError::Overflow
            } else {
                e matches CoreError::Parse { field, value } && field == f && value@ == s@
            },
        }),
{
    match parse_fixed(s.as_str()) {
        Ok(v) => Ok(v),
        Err(NumErr::Malformed) => Err(CoreError::Parse { field: f, value: s.clone() }),
        Err(NumErr::TooLarge) => Err(CoreError::Overflow),
    }
}

/// Narrows a 256-bit quotient to an accumulator contribution.
fn quotient_to_u128(q: &crate::u256::U256) -> (r: Result<u128, CoreError>)
    ensures
        r is Ok <==> q.val() <= u128::MAX,
        (match r {
            Ok(v) => v == q.val(),
            Err(e) => e == CoreError::Overflow,
        }),
{
    proof {
        crate::u256::pow2_facts();
    }
    match q.to_u128() {
        Some(v) => Ok(v),
        None => Err(CoreError::Overflow),
    }
}

/// Folds one in-range snapshot into the accumulators.
fn apply_snapshot(s: &PoolHourData, fee_tier: u128, fees: u128, r1: u128, r2: u128) -> (r: Result<
    (u128, u128, u128),
    CoreError,
>)
    ensures
        (match (r, snap_step(s, fee_tier as nat, fees as nat, r1 as nat, r2 as nat)) {
            (Ok(v), Ok(sv)) => (v.0 as nat, v.1 as nat, v.2 as nat) == sv,
            (Err(e), Err(k)) => match k {
                StepFailure::Malformed(f) => e matches CoreError::Parse { field, value } && field
                    == f && value@ == snap_field_text(s, f),
                StepFailure::TooWide => e == CoreError::Overflow,
                StepFailure::ZeroSqrtPrice => e == CoreError::DivideByZero,
            },
            _ => false,
        }),
{
    let fm = match parse_snap_field(&s.fees_usd, Field::FeesUsd) {
        Ok(v) => v,
        Err(e) => {
            return Err(e);
        },
    };
    let fee_add_wide = match mul_div(fm, fee_tier, FIXED_SCALE) {
        Ok(q) => q,
        Err(_) => {
            proof {
                assert(false);
            }
            return Err(CoreError::DivideByZero);
        },
    };
    let fee_add = match quotient_to_u128(&fee_add_wide) {
        Ok(v) => v,
        Err(e) => {
            return Err(e);
        },
    };
    let fees2 = match fees.checked_add(fee_add) {
        Some(v) => v,
        None => {
            return Err(CoreError::Overflow);
        },
    };
    let sm = match parse_snap_field(&s.sqrt_price, Field::SqrtPrice) {
        Ok(v) => v,
        Err(e) => {
            return Err(e);
        },
    };
    let vm = match parse_snap_field(&s.volume_usd, Field::VolumeUsd) {
        Ok(v) => v,
        Err(e) => {
            return Err(e);
        },
    };
    if sm == 0 {
        return Err(CoreError::DivideByZero);
    }
    let ra_wide = match mul_div(vm, FIXED_SCALE, sm) {
        Ok(q) => q,
        Err(_) => {
            proof {
                assert(false);
            }
            return Err(CoreError::DivideByZero);
        },
    };
    let ra = match quotient_to_u128(&ra_wide) {
        Ok(v) => v,
        Err(e) => {
            return Err(e);
        },
    };
    let r1n = match r1.checked_add(ra) {
        Some(v) => v,
        None => {
            return Err(CoreError::Overflow);
        },
    };
    let rb_wide = match mul_div(vm, sm, FIXED_SCALE) {
        Ok(q) => q,
        Err(_) => {
            proof {
                assert(false);
            }
            return Err(CoreError::DivideByZero);
        },
    };
    let rb = match quotient_to_u128(&rb_wide) {
        Ok(v) => v,
        Err(e) => {
            return Err(e);
        },
    };
    let r2n = match r2.checked_add(rb) {
        Some(v) => v,
        None => {
            return Err(CoreError::Overflow);
        },
    };
    Ok((fees2, r1n, r2n))
}

/// The tick of a snapshot, for the range test.
fn read_tick(s: &PoolHourData) -> (t: i32)
    ensures
        t == snapshot_tick(s),
{
    match &s.tick {
        Option::None => 0,
        Option::Some(text) => {
            match parse_i32(text.as_str()) {
                Some(v) => v,
                None => 0,
            }
        },
    }
}

/// Replays the hourly snapshots in input order over the tick range
/// `[lower_tick, upper_tick]` with the given fixed-point fee-tier
/// multiplier, starting from zeroed accumulators. Out-of-range hours are
/// skipped entirely: they advance no accumulator and emit no entry. With
/// either bound absent the result is empty.
pub fn simulate_liquidity(
    historical_data: &Vec<PoolHourData>,
    lower_tick: Option<i32>,
    upper_tick: Option<i32>,
    fee_tier: u128,
) -> (r: Result<Vec<SimulationResult>, CoreError>)
    ensures
        (match (
            r,
            sim_rec(historical_data@, lower_tick, upper_tick, fee_tier as nat, 0, 0, 0),
        ) {
            (Ok(v), Ok(es)) => v@ == es,
            (Err(e), Err((i, k))) => 0 <= i < historical_data@.len() && (match k {
                StepFailure::Malformed(f) => e matches CoreError::Parse { field, value } && field
                    == f && value@ == snap_field_text(&historical_data@[i], f),
                StepFailure::TooWide => e == CoreError::Overflow,
                StepFailure::ZeroSqrtPrice => e == CoreError::DivideByZero,
            }),
            _ => false,
        }),
{
    let ghost full = historical_data@;
    let ghost tier = fee_tier as nat;
    let mut results: Vec<SimulationResult> = Vec::new();
    let mut fees: u128 = 0;
    let mut r1: u128 = 0;
    let mut r2: u128 = 0;
    let mut idx: usize = 0;
    proof {
        assert(full.skip(0) =~= full);
    }
    while idx < historical_data.len()
        invariant
            idx <= full.len(),
            full == historical_data@,
            tier == fee_tier as nat,
            sim_rec(full, lower_tick, upper_tick, tier, 0, 0, 0) == (match sim_rec(
                full.skip(idx as int),
                lower_tick,
                upper_tick,
                tier,
                fees as nat,
                r1 as nat,
                r2 as nat,
            ) {
                Ok(es) => Result::<Seq<SimulationResult>, (int, StepFailure)>::Ok(results@ + es),
                Err((j, k)) => Result::<Seq<SimulationResult>, (int, StepFailure)>::Err(
                    (j + idx, k),
                ),
            }),
        decreases full.len() - idx,
    {
        let ghost suffix = full.skip(idx as int);
        proof {
            assert(suffix[0] == full[idx as int]);
            assert(suffix.skip(1) =~= full.skip(idx as int + 1));
        }
        let s = &historical_data[idx];
        let tick = read_tick(s);
        let inside = match (lower_tick, upper_tick) {
            (Option::Some(l), Option::Some(u)) => l <= tick && tick <= u,
            _ => false,
        };
        if inside {
            match apply_snapshot(s, fee_tier, fees, r1, r2) {
                Ok((fees2, r1n, r2n)) => {
                    let entry = SimulationResult {
                        date: s.period_start_unix,
                        reserves_token1: r1n,
                        reserves_token2: r2n,
                        accumulated_fees: fees2,
                    };
                    let ghost old_results = results@;
                    fees = fees2;
                    r1 = r1n;
                    r2 = r2n;
                    results.push(entry);
                    proof {
                        assert(results@ =~= old_results + seq![entry]);
                        assert forall|es: Seq<SimulationResult>|
                            true implies (old_results + (seq![entry] + es)) =~= (results@
                            + es) by {}
                    }
                },
                Err(e) => {
                    return Err(e);
                },
            }
        }
        idx = idx + 1;
    }
    proof {
        assert(full.skip(full.len() as int) =~= Seq::<PoolHourData>::empty());
        assert(results@ + Seq::<SimulationResult>::empty() =~= results@);
    }
    Ok(results)
}

/// The subsequence of snapshots whose tick lies inside the range.
pub open spec fn in_range_only(
    snaps: Seq<PoolHourData>,
    lower: Option<i32>,
    upper: Option<i32>,
) -> Seq<PoolHourData>
    decreases snaps.len(),
{
    if snaps.len() == 0 {
        Seq::empty()
    } else if in_range(snapshot_tick(&snaps[0]), lower, upper) {
        seq![snaps[0]] + in_range_only(snaps.skip(1), lower, upper)
    } else {
        in_range_only(snaps.skip(1), lower, upper)
    }
}

/// Law: filtering is tick-range-exact. Out-of-range snapshots emit no
/// entry and leave the accumulators untouched: the replay of a sequence
/// produces the very entries of the replay of its in-range subsequence,
/// and fails in the same way when it fails.
pub proof fn lemma_sim_filters(
    snaps: Seq<PoolHourData>,
    lower: Option<i32>,
    upper: Option<i32>,
    fee_tier: nat,
    fees: nat,
    r1: nat,
    r2: nat,
)
    ensures
        (match (
            sim_rec(snaps, lower, upper, fee_tier, fees, r1, r2),
            sim_rec(in_range_only(snaps, lower, upper), lower, upper, fee_tier, fees, r1, r2),
        ) {
            (Ok(a), Ok(b)) => a == b,
            (Err((_, k1)), Err((_, k2))) => k1 == k2,
            _ => false,
        }),
    decreases snaps.len(),
{
    if snaps.len() > 0 {
        let s = snaps[0];
        if !in_range(snapshot_tick(&s), lower, upper) {
            lemma_sim_filters(snaps.skip(1), lower, upper, fee_tier, fees, r1, r2);
        } else {
            let filtered = in_range_only(snaps, lower, upper);
            assert(filtered == seq![s] + in_range_only(snaps.skip(1), lower, upper));
            assert(filtered[0] == s);
            assert(filtered.skip(1) =~= in_range_only(snaps.skip(1), lower, upper));
            match snap_step(&s, fee_tier, fees, r1, r2) {
                Err(_) => {},
                Ok((fees2, r1n, r2n)) => {
                    lemma_sim_filters(snaps.skip(1), lower, upper, fee_tier, fees2, r1n, r2n);
                },
            }
        }
    } else {
        assert(in_range_only(snaps, lower, upper) =~= Seq::<PoolHourData>::empty());
    }
}

/// Every snapshot of the in-range subsequence is in range.
proof fn lemma_in_range_only_in_range(
    snaps: Seq<PoolHourData>,
    lower: Option<i32>,
    upper: Option<i32>,
)
    ensures
        forall|k: int|
            0 <= k < in_range_only(snaps, lower, upper).len() ==> in_range(
                snapshot_tick(&in_range_only(snaps, lower, upper)[k]),
                lower,
                upper,
            ),
    decreases snaps.len(),
{
    if snaps.len() > 0 {
        lemma_in_range_only_in_range(snaps.skip(1), lower, upper);
        let f = in_range_only(snaps, lower, upper);
        let rest = in_range_only(snaps.skip(1), lower, upper);
        if in_range(snapshot_tick(&snaps[0]), lower, upper) {
            assert forall|k: int|
                0 <= k < f.len() implies in_range(snapshot_tick(&f[k]), lower, upper) by {
                if k >= 1 {
                    assert(f[k] == rest[k - 1]);
                }
            }
        }
    }
}

/// A replay in which every snapshot is in range emits one entry per
/// snapshot when it succeeds.
proof fn lemma_sim_len_all_in_range(
    snaps: Seq<PoolHourData>,
    lower: Option<i32>,
    upper: Option<i32>,
    fee_tier: nat,
    fees: nat,
    r1: nat,
    r2: nat,
)
    requires
        forall|k: int|
            0 <= k < snaps.len() ==> in_range(snapshot_tick(&snaps[k]), lower, upper),
        sim_rec(snaps, lower, upper, fee_tier, fees, r1, r2) is Ok,
    ensures
        (match sim_rec(snaps, lower, upper, fee_tier, fees, r1, r2) {
            Ok(es) => es.len() == snaps.len(),
            Err(_) => false,
        }),
    decreases snaps.len(),
{
    if snaps.len() > 0 {
        let s = snaps[0];
        assert(in_range(snapshot_tick(&s), lower, upper));
        match snap_step(&s, fee_tier, fees, r1, r2) {
            Err(_) => {},
            Ok((fees2, r1n, r2n)) => {
                assert(forall|k: int|
                    0 <= k < snaps.skip(1).len() ==> in_range(
                        snapshot_tick(&snaps.skip(1)[k]),
                        lower,
                        upper,
                    ));
                lemma_sim_len_all_in_range(snaps.skip(1), lower, upper, fee_tier, fees2, r1n, r2n);
            },
        }
    }
}

/// Law: a successful replay emits exactly one entry per in-range snapshot.
pub proof fn lemma_sim_entry_count(
    snaps: Seq<PoolHourData>,
    lower: Option<i32>,
    upper: Option<i32>,
    fee_tier: nat,
    fees: nat,
    r1: nat,
    r2: nat,
)
    requires
        sim_rec(snaps, lower, upper, fee_tier, fees, r1, r2) is Ok,
    ensures
        (match sim_rec(snaps, lower, upper, fee_tier, fees, r1, r2) {
            Ok(es) => es.len() == in_range_only(snaps, lower, upper).len(),
            Err(_) => false,
        }),
{
    lemma_sim_filters(snaps, lower, upper, fee_tier, fees, r1, r2);
    lemma_in_range_only_in_range(snaps, lower, upper);
    lemma_sim_len_all_in_range(
        in_range_only(snaps, lower, upper),
        lower,
        upper,
        fee_tier,
        fees,
        r1,
        r2,
    );
}

/// Law: across the emitted entries, all three accumulators never decrease;
/// each entry's values are also at least the starting accumulators.
pub proof fn lemma_sim_monotone(
    snaps: Seq<PoolHourData>,
    lower: Option<i32>,
    upper: Option<i32>,
    fee_tier: nat,
    fees: nat,
    r1: nat,
    r2: nat,
)
    requires
        sim_rec(snaps, lower, upper, fee_tier, fees, r1, r2) is Ok,
        fees <= u128::MAX,
        r1 <= u128::MAX,
        r2 <= u128::MAX,
    ensures
        (match sim_rec(snaps, lower, upper, fee_tier, fees, r1, r2) {
            Ok(es) => (forall|k: int|
                0 <= k < es.len() ==> (#[trigger] es[k]).accumulated_fees >= fees
                    && es[k].reserves_token1 >= r1 && es[k].reserves_token2 >= r2) && (forall|
                i: int,
                j: int,
            |
                0 <= i <= j < es.len() ==> (#[trigger] es[i]).accumulated_fees <= (
                #[trigger] es[j]).accumulated_fees && es[i].reserves_token1
                    <= es[j].reserves_token1 && es[i].reserves_token2 <= es[j].reserves_token2),
            Err(_) => false,
        }),
    decreases snaps.len(),
{
    if snaps.len() > 0 {
        let s = snaps[0];
        if !in_range(snapshot_tick(&s), lower, upper) {
            lemma_sim_monotone(snaps.skip(1), lower, upper, fee_tier, fees, r1, r2);
        } else {
            match snap_step(&s, fee_tier, fees, r1, r2) {
                Err(_) => {},
                Ok((fees2, r1n, r2n)) => {
                    lemma_sim_monotone(snaps.skip(1), lower, upper, fee_tier, fees2, r1n, r2n);
                    let entry = SimulationResult {
                        date: s.period_start_unix,
                        reserves_token1: r1n as u128,
                        reserves_token2: r2n as u128,
                        accumulated_fees: fees2 as u128,
                    };
                    let es_rest = match sim_rec(
                        snaps.skip(1),
                        lower,
                        upper,
                        fee_tier,
                        fees2,
                        r1n,
                        r2n,
                    ) {
                        Ok(es) => es,
                        Err(_) => Seq::empty(),
                    };
                    let es = seq![entry] + es_rest;
                    assert(es[0] == entry);
                    assert forall|k: int| 1 <= k < es.len() implies es[k] == es_rest[k - 1] by {}
                },
            }
        }
    }
}

} // verus!

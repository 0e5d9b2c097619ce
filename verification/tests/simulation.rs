use poolsim::errors::{CoreError, Field};
use poolsim::parse::FIXED_SCALE;
use poolsim::simulator::{simulate_liquidity, PoolHourData, SimulationResult};

fn snapshot(date: i64, tick: Option<&str>, volume: &str, fees: &str, sqrt_price: &str) -> PoolHourData {
    PoolHourData {
        period_start_unix: date,
        tick: tick.map(String::from),
        volume_usd: String::from(volume),
        fees_usd: String::from(fees),
        sqrt_price: String::from(sqrt_price),
    }
}

const FEE_TIER_0_003: u128 = 3_000_000_000_000_000; // 0.003 in fixed point

#[test]
fn one_in_range_snapshot() {
    // volume 1000, fees 3, sqrt price 2, fee tier 0.003:
    // fees = 0.009, reserve A = 1000 / 2 = 500, reserve B = 1000 * 2 = 2000
    let snaps = vec![snapshot(1700000000, Some("10"), "1000", "3", "2")];
    let out = simulate_liquidity(&snaps, Some(0), Some(100), FEE_TIER_0_003).unwrap();
    assert_eq!(
        out,
        vec![SimulationResult {
            date: 1700000000,
            reserves_token1: 500 * FIXED_SCALE,
            reserves_token2: 2000 * FIXED_SCALE,
            accumulated_fees: 9_000_000_000_000_000,
        }]
    );
}

#[test]
fn out_of_range_snapshot_emits_nothing() {
    // the same snapshot against the range [20, 100]: no entry, and the
    // accumulators stay at zero for any later query
    let snaps = vec![snapshot(1700000000, Some("10"), "1000", "3", "2")];
    let out = simulate_liquidity(&snaps, Some(20), Some(100), FEE_TIER_0_003).unwrap();
    assert_eq!(out, vec![]);
    let again = simulate_liquidity(&snaps, Some(20), Some(100), FEE_TIER_0_003).unwrap();
    assert_eq!(again, vec![]);
}

#[test]
fn out_of_range_snapshot_does_not_advance_accumulators() {
    // an out-of-range hour between two in-range hours leaves no trace
    let with_gap = vec![
        snapshot(1, Some("10"), "1000", "3", "2"),
        snapshot(2, Some("500"), "777777", "999", "5"),
        snapshot(3, Some("20"), "1000", "3", "2"),
    ];
    let without_gap = vec![
        snapshot(1, Some("10"), "1000", "3", "2"),
        snapshot(3, Some("20"), "1000", "3", "2"),
    ];
    let a = simulate_liquidity(&with_gap, Some(0), Some(100), FEE_TIER_0_003).unwrap();
    let b = simulate_liquidity(&without_gap, Some(0), Some(100), FEE_TIER_0_003).unwrap();
    assert_eq!(a, b);
    assert_eq!(a.len(), 2);
}

#[test]
fn accumulators_never_decrease() {
    let snaps = vec![
        snapshot(1, Some("10"), "1000", "3", "2"),
        snapshot(2, Some("15"), "50", "0.5", "3"),
        snapshot(3, Some("99"), "0", "0", "1"),
        snapshot(4, Some("0"), "2500", "7", "0.5"),
    ];
    let out = simulate_liquidity(&snaps, Some(0), Some(100), FEE_TIER_0_003).unwrap();
    assert_eq!(out.len(), 4);
    for w in out.windows(2) {
        assert!(w[0].accumulated_fees <= w[1].accumulated_fees);
        assert!(w[0].reserves_token1 <= w[1].reserves_token1);
        assert!(w[0].reserves_token2 <= w[1].reserves_token2);
    }
}

#[test]
fn missing_bound_includes_nothing() {
    let snaps = vec![snapshot(1, Some("10"), "1000", "3", "2")];
    assert_eq!(simulate_liquidity(&snaps, None, Some(100), FEE_TIER_0_003).unwrap(), vec![]);
    assert_eq!(simulate_liquidity(&snaps, Some(0), None, FEE_TIER_0_003).unwrap(), vec![]);
    assert_eq!(simulate_liquidity(&snaps, None, None, FEE_TIER_0_003).unwrap(), vec![]);
}

#[test]
fn empty_input_yields_empty_output() {
    let out = simulate_liquidity(&vec![], Some(0), Some(100), FEE_TIER_0_003).unwrap();
    assert_eq!(out, vec![]);
}

#[test]
fn missing_tick_counts_as_zero() {
    let snaps = vec![snapshot(1, None, "100", "1", "1")];
    // zero is inside [0, 10]
    let inside = simulate_liquidity(&snaps, Some(0), Some(10), FEE_TIER_0_003).unwrap();
    assert_eq!(inside.len(), 1);
    // and outside [5, 10]
    let outside = simulate_liquidity(&snaps, Some(5), Some(10), FEE_TIER_0_003).unwrap();
    assert_eq!(outside, vec![]);
}

#[test]
fn unreadable_tick_counts_as_zero() {
    let snaps = vec![snapshot(1, Some("around 7"), "100", "1", "1")];
    let inside = simulate_liquidity(&snaps, Some(-1), Some(1), FEE_TIER_0_003).unwrap();
    assert_eq!(inside.len(), 1);
}

#[test]
fn range_bounds_are_inclusive() {
    let snaps = vec![
        snapshot(1, Some("5"), "100", "1", "1"),
        snapshot(2, Some("10"), "100", "1", "1"),
        snapshot(3, Some("4"), "100", "1", "1"),
        snapshot(4, Some("11"), "100", "1", "1"),
    ];
    let out = simulate_liquidity(&snaps, Some(5), Some(10), FEE_TIER_0_003).unwrap();
    assert_eq!(out.len(), 2);
    assert_eq!(out[0].date, 1);
    assert_eq!(out[1].date, 2);
}

#[test]
fn zero_sqrt_price_is_a_numeric_error() {
    let snaps = vec![snapshot(1, Some("10"), "1000", "3", "0")];
    let err = simulate_liquidity(&snaps, Some(0), Some(100), FEE_TIER_0_003).unwrap_err();
    assert_eq!(err, CoreError::DivideByZero);
}

#[test]
fn zero_sqrt_price_out_of_range_is_skipped() {
    // an out-of-range snapshot is never parsed, so its zero price is not
    // an error
    let snaps = vec![snapshot(1, Some("999"), "1000", "3", "0")];
    let out = simulate_liquidity(&snaps, Some(0), Some(100), FEE_TIER_0_003).unwrap();
    assert_eq!(out, vec![]);
}

#[test]
fn malformed_fees_field_is_reported() {
    let snaps = vec![snapshot(1, Some("10"), "1000", "3,5", "2")];
    let err = simulate_liquidity(&snaps, Some(0), Some(100), FEE_TIER_0_003).unwrap_err();
    assert_eq!(
        err,
        CoreError::Parse { field: Field::FeesUsd, value: String::from("3,5") }
    );
}

#[test]
fn malformed_volume_field_is_reported() {
    let snaps = vec![snapshot(1, Some("10"), "much", "3", "2")];
    let err = simulate_liquidity(&snaps, Some(0), Some(100), FEE_TIER_0_003).unwrap_err();
    assert_eq!(
        err,
        CoreError::Parse { field: Field::VolumeUsd, value: String::from("much") }
    );
}

#[test]
fn oversized_volume_is_an_overflow() {
    // 10^21 USD of volume leaves the fixed-point width
    let snaps = vec![snapshot(1, Some("10"), "1000000000000000000000", "3", "2")];
    let err = simulate_liquidity(&snaps, Some(0), Some(100), FEE_TIER_0_003).unwrap_err();
    assert_eq!(err, CoreError::Overflow);
}

#[test]
fn fractional_inputs_accumulate_exactly() {
    // fees 0.5 at tier 0.003 twice: 0.0015 then 0.003 accumulated
    let snaps = vec![
        snapshot(1, Some("0"), "10", "0.5", "1"),
        snapshot(2, Some("0"), "10", "0.5", "1"),
    ];
    let out = simulate_liquidity(&snaps, Some(0), Some(0), FEE_TIER_0_003).unwrap();
    assert_eq!(out[0].accumulated_fees, 1_500_000_000_000_000);
    assert_eq!(out[1].accumulated_fees, 3_000_000_000_000_000);
    // volume 10 at sqrt price 1: both reserves advance by 10 each hour
    assert_eq!(out[1].reserves_token1, 20 * FIXED_SCALE);
    assert_eq!(out[1].reserves_token2, 20 * FIXED_SCALE);
}

use poolsim::errors::{CoreError, Field};
use poolsim::fees::{
    calculate_position_fees, Pool, PoolDayData, Position, TickLower, TickUpper, Token,
    TokenDayData, Transaction,
};
use poolsim::u256::U256;

fn token(decimals: &str) -> Token {
    Token {
        id: String::from("0xtoken"),
        name: String::from("Token"),
        symbol: String::from("TOK"),
        volume_usd: String::from("0"),
        logo_uri: String::new(),
        decimals: String::from(decimals),
        token_day_data: vec![TokenDayData { price_usd: String::from("1") }],
        total_value_locked_usd: String::from("0"),
        pool_count: 1,
    }
}

fn pool(tick: &str, global0: &str, global1: &str) -> Pool {
    Pool {
        id: String::from("0xpool"),
        fee_tier: String::from("3000"),
        liquidity: String::from("0"),
        tick: String::from(tick),
        sqrt_price: String::from("0"),
        token0_price: String::from("1"),
        token1_price: String::from("1"),
        fee_growth_global0_x128: String::from(global0),
        fee_growth_global1_x128: String::from(global1),
        token0: token("18"),
        token1: token("18"),
        total_value_locked_usd: String::from("0"),
        pool_day_data: vec![PoolDayData {
            date: 0,
            volume_usd: String::from("0"),
            open: String::from("0"),
            high: String::from("0"),
            low: String::from("0"),
            close: String::from("0"),
        }],
    }
}

fn position(
    lower: &str,
    upper: &str,
    liquidity: &str,
    outside: [&str; 4],
    inside_last: [&str; 2],
) -> Position {
    Position {
        id: String::from("1"),
        tick_lower: TickLower {
            tick_idx: String::from(lower),
            fee_growth_outside0_x128: String::from(outside[0]),
            fee_growth_outside1_x128: String::from(outside[1]),
        },
        tick_upper: TickUpper {
            tick_idx: String::from(upper),
            fee_growth_outside0_x128: String::from(outside[2]),
            fee_growth_outside1_x128: String::from(outside[3]),
        },
        deposited_token0: String::from("0"),
        deposited_token1: String::from("0"),
        liquidity: String::from(liquidity),
        transaction: Transaction { timestamp: String::from("0") },
        collected_fees_token0: String::from("0"),
        collected_fees_token1: String::from("0"),
        fee_growth_inside0_last_x128: String::from(inside_last[0]),
        fee_growth_inside1_last_x128: String::from(inside_last[1]),
    }
}

const Q128_STR: &str = "340282366920938463463374607431768211456";

#[test]
fn one_q128_of_growth_normalizes_to_zero_at_18_decimals() {
    // liquidity 1000, fee growth inside now exactly 1.0 in Q128 units,
    // last checkpoint 0: raw fees are 1000 units, which vanish after
    // dividing by 10^18.
    let p = pool("0", Q128_STR, "0");
    let pos = position("-10", "10", "1000", ["0", "0", "0", "0"], ["0", "0"]);
    let (f0, f1) =
        calculate_position_fees(&p, &pos, &Some(token("18")), &Some(token("18"))).unwrap();
    assert_eq!(f0, U256::from_u128(0));
    assert_eq!(f1, U256::from_u128(0));
}

#[test]
fn one_q128_of_growth_with_zero_decimals() {
    // the same accrual at zero display decimals keeps all 1000 units
    let p = pool("0", Q128_STR, "0");
    let pos = position("-10", "10", "1000", ["0", "0", "0", "0"], ["0", "0"]);
    let (f0, f1) =
        calculate_position_fees(&p, &pos, &Some(token("0")), &Some(token("0"))).unwrap();
    assert_eq!(f0, U256::from_u128(1000));
    assert_eq!(f1, U256::from_u128(0));
}

#[test]
fn missing_token_defaults_to_18_decimals() {
    let p = pool("0", Q128_STR, "0");
    let pos = position("-10", "10", "1000", ["0", "0", "0", "0"], ["0", "0"]);
    let (f0, _) = calculate_position_fees(&p, &pos, &None, &None).unwrap();
    assert_eq!(f0, U256::from_u128(0));
}

#[test]
fn unreadable_decimals_default_to_18() {
    let p = pool("0", Q128_STR, "0");
    let pos = position("-10", "10", "1000", ["0", "0", "0", "0"], ["0", "0"]);
    let (f0, _) =
        calculate_position_fees(&p, &pos, &Some(token("many")), &Some(token("18"))).unwrap();
    assert_eq!(f0, U256::from_u128(0));
}

// growth counters worth 100, 30, 20 and 20 whole Q128 units
const G100_STR: &str = "34028236692093846346337460743176821145600";
const G30_STR: &str = "10208471007628153903901238222953046343680";
const G20_STR: &str = "6805647338418769269267492148635364229120";

#[test]
fn lower_boundary_is_inclusive() {
    // current tick exactly on the lower boundary: fee growth below is the
    // recorded outside value (30 units), not its complement (70), so the
    // growth inside is 100 - 30 - 20 == 50 units, and one unit of
    // liquidity collects 50 after the Q128 scale-down.
    let p = pool("5", G100_STR, "0");
    let pos = position("5", "10", "1", [G30_STR, "0", G20_STR, "0"], ["0", "0"]);
    let (f0, _) =
        calculate_position_fees(&p, &pos, &Some(token("0")), &Some(token("0"))).unwrap();
    assert_eq!(f0, U256::from_u128(50));
}

#[test]
fn upper_boundary_is_exclusive() {
    // current tick exactly on the upper boundary: fee growth above is the
    // complement (100 - 20 == 80 units); the inside growth 70 - 80 wraps
    // modulo 2^256, and one unit of liquidity leaves 2^128 - 10 after the
    // Q128 scale-down.
    let p = pool("10", G100_STR, "0");
    let pos = position("5", "10", "1", [G30_STR, "0", G20_STR, "0"], ["0", "0"]);
    let (f0, _) =
        calculate_position_fees(&p, &pos, &Some(token("0")), &Some(token("0"))).unwrap();
    assert_eq!(
        f0,
        U256::from_u128(340282366920938463463374607431768211446)
    );
}

#[test]
fn out_of_range_below_uses_complements() {
    // current tick below the range: below = 100 - 30 = 70 units,
    // above = 20 units, inside = 100 - 70 - 20 = 10 units.
    let p = pool("1", G100_STR, "0");
    let pos = position("5", "10", "1", [G30_STR, "0", G20_STR, "0"], ["0", "0"]);
    let (f0, _) =
        calculate_position_fees(&p, &pos, &Some(token("0")), &Some(token("0"))).unwrap();
    assert_eq!(f0, U256::from_u128(10));
}

#[test]
fn swapping_token_roles_swaps_the_result() {
    let p = pool("7", "12345", "999");
    let pos = position("5", "10", "98765", ["11", "22", "33", "44"], ["1", "2"]);
    let swapped_p = pool("7", "999", "12345");
    let swapped_pos = position("5", "10", "98765", ["22", "11", "44", "33"], ["2", "1"]);
    let (a0, a1) =
        calculate_position_fees(&p, &pos, &Some(token("3")), &Some(token("5"))).unwrap();
    let (b0, b1) =
        calculate_position_fees(&swapped_p, &swapped_pos, &Some(token("5")), &Some(token("3")))
            .unwrap();
    assert_eq!(a0, b1);
    assert_eq!(a1, b0);
}

#[test]
fn checkpoint_subtracts_from_accrual() {
    // inside now 50 units, last checkpoint 20 units: thirty accrued since.
    let p = pool("5", G100_STR, "0");
    let pos = position("5", "10", "1", [G30_STR, "0", G20_STR, "0"], [G20_STR, "0"]);
    let (f0, _) =
        calculate_position_fees(&p, &pos, &Some(token("0")), &Some(token("0"))).unwrap();
    assert_eq!(f0, U256::from_u128(30));
}

#[test]
fn malformed_pool_tick_is_reported_first() {
    let p = pool("soon", "not-a-number", "0");
    let pos = position("bad", "10", "1", ["0", "0", "0", "0"], ["0", "0"]);
    let err = calculate_position_fees(&p, &pos, &None, &None).unwrap_err();
    assert_eq!(
        err,
        CoreError::Parse { field: Field::PoolTick, value: String::from("soon") }
    );
}

#[test]
fn malformed_boundary_tick_is_reported() {
    let p = pool("0", "0", "0");
    let pos = position("low", "10", "1", ["0", "0", "0", "0"], ["0", "0"]);
    let err = calculate_position_fees(&p, &pos, &None, &None).unwrap_err();
    assert_eq!(
        err,
        CoreError::Parse { field: Field::TickLowerIdx, value: String::from("low") }
    );
}

#[test]
fn malformed_growth_field_is_reported() {
    let p = pool("0", "12x", "0");
    let pos = position("-10", "10", "1", ["0", "0", "0", "0"], ["0", "0"]);
    let err = calculate_position_fees(&p, &pos, &None, &None).unwrap_err();
    assert_eq!(
        err,
        CoreError::Parse { field: Field::FeeGrowthGlobal0, value: String::from("12x") }
    );
}

#[test]
fn oversized_liquidity_is_an_overflow() {
    // liquidity of 2^128 does not fit the protocol's 128-bit liquidity
    let p = pool("0", "0", "0");
    let pos = position(
        "-10",
        "10",
        "340282366920938463463374607431768211456",
        ["0", "0", "0", "0"],
        ["0", "0"],
    );
    let err = calculate_position_fees(&p, &pos, &None, &None).unwrap_err();
    assert_eq!(err, CoreError::Overflow);
}

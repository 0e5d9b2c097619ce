//! The fee-growth calculator: the three-region (below / inside / above)
//! accounting scheme that yields the fees a position has accrued since its
//! last checkpoint.
//!
//! All fee-growth counters are Q128-scaled 256-bit values that wrap on
//! overflow in the source protocol, so every subtraction here is performed
//! modulo 2^256.

use vstd::prelude::*;

use crate::errors::{CoreError, Field};
use crate::math::{mul_div_q128, pow10};
use crate::parse::{
    digits_val, int_str_val, is_uint_str, parse_i32, parse_u128, parse_u256, parse_u32,
    valid_i32_field, NumErr,
};
use crate::u256::{sub_mod_256, U256};

verus! {

use vstd::arithmetic::power::pow;
use vstd::arithmetic::power2::pow2;
/// Per-day traded price of a token, as the data source reports it.
#[derive(Debug, Clone)]
pub struct TokenDayData {
    pub price_usd: String,
}

/// A pool token and its display metadata.
#[derive(Debug, Clone)]
pub struct Token {
    pub id: String,
    pub name: String,
    pub symbol: String,
    pub volume_usd: String,
    pub logo_uri: String,
    pub decimals: String,
    pub token_day_data: Vec<TokenDayData>,
    pub total_value_locked_usd: String,
    pub pool_count: u32,
}

/// One initialized tick of a pool.
#[derive(Debug, Clone)]
pub struct Tick {
    pub tick_idx: String,
    pub liquidity_net: String,
    pub price0: String,
    pub price1: String,
}

/// A day of aggregated pool trading data.
#[derive(Debug, Clone)]
pub struct PoolDayData {
    pub date: u64,
    pub volume_usd: String,
    pub open: String,
    pub high: String,
    pub low: String,
    pub close: String,
}

/// A pool's state, with the global fee-growth counters the accrual formula
/// reads.
#[derive(Debug, Clone)]
pub struct Pool {
    pub id: String,
    pub fee_tier: String,
    pub liquidity: String,
    pub tick: String,
    pub sqrt_price: String,
    pub token0_price: String,
    pub token1_price: String,
    pub fee_growth_global0_x128: String,
    pub fee_growth_global1_x128: String,
    pub token0: Token,
    pub token1: Token,
    pub total_value_locked_usd: String,
    pub pool_day_data: Vec<PoolDayData>,
}

/// The lower boundary tick of a position, with its fee growth recorded
/// outside the boundary.
#[derive(Debug, Clone)]
pub struct TickLower {
    pub tick_idx: String,
    pub fee_growth_outside0_x128: String,
    pub fee_growth_outside1_x128: String,
}

/// The upper boundary tick of a position.
#[derive(Debug, Clone)]
pub struct TickUpper {
    pub tick_idx: String,
    pub fee_growth_outside0_x128: String,
    pub fee_growth_outside1_x128: String,
}

/// The transaction that created a position.
#[derive(Debug, Clone)]
pub struct Transaction {
    pub timestamp: String,
}

/// A liquidity position between two boundary ticks.
#[derive(Debug, Clone)]
pub struct Position {
    pub id: String,
    pub tick_lower: TickLower,
    pub tick_upper: TickUpper,
    pub deposited_token0: String,
    pub deposited_token1: String,
    pub liquidity: String,
    pub transaction: Transaction,
    pub collected_fees_token0: String,
    pub collected_fees_token1: String,
    pub fee_growth_inside0_last_x128: String,
    pub fee_growth_inside1_last_x128: String,
}

/// Fee growth below the lower boundary: the recorded outside value while
/// the current tick is at or above the boundary, its complement otherwise.
pub open spec fn growth_below(current: int, lower: int, global: nat, outside: nat) -> nat {
    if current >= lower {
        outside
    } else {
        sub_mod_256(global, outside)
    }
}

/// Fee growth above the upper boundary: the recorded outside value while
/// the current tick is strictly below the boundary, its complement
/// otherwise.
pub open spec fn growth_above(current: int, upper: int, global: nat, outside: nat) -> nat {
    if current < upper {
        outside
    } else {
        sub_mod_256(global, outside)
    }
}

/// Fee growth inside the range now: global growth less the growth below
/// and above the range.
pub open spec fn growth_inside(
    current: int,
    lower: int,
    upper: int,
    global: nat,
    out_lower: nat,
    out_upper: nat,
) -> nat {
    sub_mod_256(
        sub_mod_256(global, growth_below(current, lower, global, out_lower)),
        growth_above(current, upper, global, out_upper),
    )
}

/// Uncollected fees of one token before decimal adjustment:
/// `liquidity * (inside_now - inside_last) / 2^128`.
pub open spec fn uncollected_fees_raw(liquidity: nat, inside_now: nat, inside_last: nat) -> nat {
    liquidity * sub_mod_256(inside_now, inside_last) / pow2(128)
}

/// The whole per-token accrual: fee growth inside the range since the last
/// checkpoint, times the liquidity, brought down to display decimals.
pub open spec fn position_fee_token(
    current: int,
    lower: int,
    upper: int,
    global: nat,
    out_lower: nat,
    out_upper: nat,
    inside_last: nat,
    liquidity: nat,
    decimals: nat,
) -> nat {
    uncollected_fees_raw(
        liquidity,
        growth_inside(current, lower, upper, global, out_lower, out_upper),
        inside_last,
    ) / (pow(10, decimals) as nat)
}

/// The display decimals of a token: the parsed field when it reads as a
/// 32-bit integer, 18 otherwise or when the token is absent.
pub open spec fn token_decimals(t: &Option<Token>) -> nat {
    match t {
        Option::None => 18,
        Option::Some(tok) => if is_uint_str(tok.decimals@) && digits_val(tok.decimals@)
            <= u32::MAX {
            digits_val(tok.decimals@)
        } else {
            18
        },
    }
}

/// The first field, in parse order, that does not read back as a number:
/// `Some((field, true))` for malformed text, `Some((field, false))` for a
/// well-formed number too wide for its type, `None` when all fields parse.
pub open spec fn first_bad_field(pool: &Pool, position: &Position) -> Option<(Field, bool)> {
    if !valid_i32_field(pool.tick@) {
        Some((Field::PoolTick, true))
    } else if !valid_i32_field(position.tick_lower.tick_idx@) {
        Some((Field::TickLowerIdx, true))
    } else if !valid_i32_field(position.tick_upper.tick_idx@) {
        Some((Field::TickUpperIdx, true))
    } else if !is_uint_str(position.liquidity@) {
        Some((Field::Liquidity, true))
    } else if digits_val(position.liquidity@) > u128::MAX {
        Some((Field::Liquidity, false))
    } else if !is_uint_str(pool.fee_growth_global0_x128@) {
        Some((Field::FeeGrowthGlobal0, true))
    } else if digits_val(pool.fee_growth_global0_x128@) >= pow2(256) {
        Some((Field::FeeGrowthGlobal0, false))
    } else if !is_uint_str(pool.fee_growth_global1_x128@) {
        Some((Field::FeeGrowthGlobal1, true))
    } else if digits_val(pool.fee_growth_global1_x128@) >= pow2(256) {
        Some((Field::FeeGrowthGlobal1, false))
    } else if !is_uint_str(position.tick_lower.fee_growth_outside0_x128@) {
        Some((Field::LowerOutside0, true))
    } else if digits_val(position.tick_lower.fee_growth_outside0_x128@) >= pow2(256) {
        Some((Field::LowerOutside0, false))
    } else if !is_uint_str(position.tick_lower.fee_growth_outside1_x128@) {
        Some((Field::LowerOutside1, true))
    } else if digits_val(position.tick_lower.fee_growth_outside1_x128@) >= pow2(256) {
        Some((Field::LowerOutside1, false))
    } else if !is_uint_str(position.tick_upper.fee_growth_outside0_x128@) {
        Some((Field::UpperOutside0, true))
    } else if digits_val(position.tick_upper.fee_growth_outside0_x128@) >= pow2(256) {
        Some((Field::UpperOutside0, false))
    } else if !is_uint_str(position.tick_upper.fee_growth_outside1_x128@) {
        Some((Field::UpperOutside1, true))
    } else if digits_val(position.tick_upper.fee_growth_outside1_x128@) >= pow2(256) {
        Some((Field::UpperOutside1, false))
    } else if !is_uint_str(position.fee_growth_inside0_last_x128@) {
        Some((Field::InsideLast0, true))
    } else if digits_val(position.fee_growth_inside0_last_x128@) >= pow2(256) {
        Some((Field::InsideLast0, false))
    } else if !is_uint_str(position.fee_growth_inside1_last_x128@) {
        Some((Field::InsideLast1, true))
    } else if digits_val(position.fee_growth_inside1_last_x128@) >= pow2(256) {
        Some((Field::InsideLast1, false))
    } else {
        None
    }
}

/// The raw text of a fee-calculation input field.
pub open spec fn field_text(pool: &Pool, position: &Position, f: Field) -> Seq<char> {
    match f {
        Field::PoolTick => pool.tick@,
        Field::TickLowerIdx => position.tick_lower.tick_idx@,
        Field::TickUpperIdx => position.tick_upper.tick_idx@,
        Field::Liquidity => position.liquidity@,
        Field::FeeGrowthGlobal0 => pool.fee_growth_global0_x128@,
        Field::FeeGrowthGlobal1 => pool.fee_growth_global1_x128@,
        Field::LowerOutside0 => position.tick_lower.fee_growth_outside0_x128@,
        Field::LowerOutside1 => position.tick_lower.fee_growth_outside1_x128@,
        Field::UpperOutside0 => position.tick_upper.fee_growth_outside0_x128@,
        Field::UpperOutside1 => position.tick_upper.fee_growth_outside1_x128@,
        Field::InsideLast0 => position.fee_growth_inside0_last_x128@,
        Field::InsideLast1 => position.fee_growth_inside1_last_x128@,
        _ => Seq::empty(),
    }
}

/// The pair of adjusted uncollected-fee amounts the calculator returns,
/// from the parsed fields.
pub open spec fn spec_position_fees(
    pool: &Pool,
    position: &Position,
    token0: &Option<Token>,
    token1: &Option<Token>,
) -> (nat, nat) {
    let current = int_str_val(pool.tick@);
    let lower = int_str_val(position.tick_lower.tick_idx@);
    let upper = int_str_val(position.tick_upper.tick_idx@);
    let liquidity = digits_val(position.liquidity@);
    (
        position_fee_token(
            current,
            lower,
            upper,
            digits_val(pool.fee_growth_global0_x128@),
            digits_val(position.tick_lower.fee_growth_outside0_x128@),
            digits_val(position.tick_upper.fee_growth_outside0_x128@),
            digits_val(position.fee_growth_inside0_last_x128@),
            liquidity,
            token_decimals(token0),
        ),
        position_fee_token(
            current,
            lower,
            upper,
            digits_val(pool.fee_growth_global1_x128@),
            digits_val(position.tick_lower.fee_growth_outside1_x128@),
            digits_val(position.tick_upper.fee_growth_outside1_x128@),
            digits_val(position.fee_growth_inside1_last_x128@),
            liquidity,
            token_decimals(token1),
        ),
    )
}

/// Parses a tick-index field, or reports it.
fn parse_tick_field(s: &String, f: Field) -> (r: Result<i32, CoreError>)
    ensures
        r is Ok <==> valid_i32_field(s@),
        (match r {
            Ok(v) => v == int_str_val(s@),
            Err(e) => e matches CoreError::Parse { field, value } && field == f && value@ == s@,
        }),
{
    match parse_i32(s.as_str()) {
        Some(v) => Ok(v),
        None => Err(CoreError::Parse { field: f, value: s.clone() }),
    }
}

/// Parses a Q128 fee-growth counter field, or reports it.
fn parse_growth_field(s: &String, f: Field) -> (r: Result<U256, CoreError>)
    ensures
        r is Ok <==> is_uint_str(s@) && digits_val(s@) < pow2(256),
        (match r {
            Ok(v) => v.val() == digits_val(s@),
            Err(e) => if is_uint_str(s@) {
                e == CoreError::Overflow
            } else {
                e matches CoreError::Parse { field, value } && field == f && value@ == s@
            },
        }),
{
    match parse_u256(s.as_str()) {
        Ok(v) => Ok(v),
        Err(NumErr::Malformed) => Err(CoreError::Parse { field: f, value: s.clone() }),
        Err(NumErr::TooLarge) => Err(CoreError::Overflow),
    }
}

/// The display decimals of a token, defaulting to 18.
fn read_decimals(t: &Option<Token>) -> (r: u32)
    ensures
        r == token_decimals(t),
{
    match t {
        Option::None => 18,
        Option::Some(tok) => {
            match parse_u32(tok.decimals.as_str()) {
                Some(d) => d,
                None => 18,
            }
        },
    }
}

/// One token's uncollected fees, adjusted to its display decimals.
fn fee_one_token(
    current: i32,
    lower: i32,
    upper: i32,
    liquidity: u128,
    global: &U256,
    out_lower: &U256,
    out_upper: &U256,
    inside_last: &U256,
    decimals: u32,
) -> (r: U256)
    ensures
        r.val() == position_fee_token(
            current as int,
            lower as int,
            upper as int,
            global.val(),
            out_lower.val(),
            out_upper.val(),
            inside_last.val(),
            liquidity as nat,
            decimals as nat,
        ),
{
    let below = if current >= lower {
        *out_lower
    } else {
        global.wrapping_sub(out_lower)
    };
    let above = if current < upper {
        *out_upper
    } else {
        global.wrapping_sub(out_upper)
    };
    let inside_now = global.wrapping_sub(&below).wrapping_sub(&above);
    let delta = inside_now.wrapping_sub(inside_last);
    let raw = mul_div_q128(liquidity, &delta);
    match pow10(decimals) {
        Some(denom) => {
            proof {
                vstd::arithmetic::power::lemma_pow_positive(10, decimals as nat);
            }
            let (q, rem) = raw.div_rem(&denom);
            proof {
                vstd::arithmetic::div_mod::lemma_fundamental_div_mod_converse(
                    raw.val() as int,
                    denom.val() as int,
                    q.val() as int,
                    rem.val() as int,
                );
            }
            q
        },
        None => {
            // The divisor exceeds every 256-bit value, so the quotient is zero.
            proof {
                raw.lemma_val_bound();
                vstd::arithmetic::div_mod::lemma_basic_div(
                    raw.val() as int,
                    pow(10, decimals as nat) as int,
                );
            }
            U256::zero()
        },
    }
}

/// Computes the pair of uncollected fee amounts owed to `position` in
/// `pool`, each adjusted by its token's display decimals, from the
/// serialized state the data source delivers.
///
/// Fee-growth subtractions wrap modulo 2^256, as the protocol's counters
/// do. A malformed numeric field is reported as a parse error carrying the
/// field and its raw text; a well-formed number too wide for its fixed
/// width is reported as an overflow.
pub fn calculate_position_fees(
    pool: &Pool,
    position: &Position,
    token0: &Option<Token>,
    token1: &Option<Token>,
) -> (r: Result<(U256, U256), CoreError>)
    ensures
        r is Ok <==> first_bad_field(pool, position) is None,
        (match r {
            Ok(v) => (v.0.val(), v.1.val()) == spec_position_fees(pool, position, token0, token1),
            Err(e) => {
                let bad = first_bad_field(pool, position);
                bad matches Some((f, malformed)) && (if malformed {
                    e matches CoreError::Parse { field, value } && field == f && value@
                        == field_text(pool, position, f)
                } else {
                    e == CoreError::Overflow
                })
            },
        }),
{
    let tick_current = match parse_tick_field(&pool.tick, Field::PoolTick) {
        Ok(v) => v,
        Err(e) => {
            return Err(e);
        },
    };
    let tick_lower = match parse_tick_field(&position.tick_lower.tick_idx, Field::TickLowerIdx) {
        Ok(v) => v,
        Err(e) => {
            return Err(e);
        },
    };
    let tick_upper = match parse_tick_field(&position.tick_upper.tick_idx, Field::TickUpperIdx) {
        Ok(v) => v,
        Err(e) => {
            return Err(e);
        },
    };
    let liquidity = match parse_u128(position.liquidity.as_str()) {
        Ok(v) => v,
        Err(NumErr::Malformed) => {
            return Err(
                CoreError::Parse { field: Field::Liquidity, value: position.liquidity.clone() },
            );
        },
        Err(NumErr::TooLarge) => {
            return Err(CoreError::Overflow);
        },
    };
    let global0 = match parse_growth_field(&pool.fee_growth_global0_x128, Field::FeeGrowthGlobal0) {
        Ok(v) => v,
        Err(e) => {
            return Err(e);
        },
    };
    let global1 = match parse_growth_field(&pool.fee_growth_global1_x128, Field::FeeGrowthGlobal1) {
        Ok(v) => v,
        Err(e) => {
            return Err(e);
        },
    };
    let lower_outside0 = match parse_growth_field(
        &position.tick_lower.fee_growth_outside0_x128,
        Field::LowerOutside0,
    ) {
        Ok(v) => v,
        Err(e) => {
            return Err(e);
        },
    };
    let lower_outside1 = match parse_growth_field(
        &position.tick_lower.fee_growth_outside1_x128,
        Field::LowerOutside1,
    ) {
        Ok(v) => v,
        Err(e) => {
            return Err(e);
        },
    };
    let upper_outside0 = match parse_growth_field(
        &position.tick_upper.fee_growth_outside0_x128,
        Field::UpperOutside0,
    ) {
        Ok(v) => v,
        Err(e) => {
            return Err(e);
        },
    };
    let upper_outside1 = match parse_growth_field(
        &position.tick_upper.fee_growth_outside1_x128,
        Field::UpperOutside1,
    ) {
        Ok(v) => v,
        Err(e) => {
            return Err(e);
        },
    };
    let inside_last0 = match parse_growth_field(
        &position.fee_growth_inside0_last_x128,
        Field::InsideLast0,
    ) {
        Ok(v) => v,
        Err(e) => {
            return Err(e);
        },
    };
    let inside_last1 = match parse_growth_field(
        &position.fee_growth_inside1_last_x128,
        Field::InsideLast1,
    ) {
        Ok(v) => v,
        Err(e) => {
            return Err(e);
        },
    };
    let decimals0 = read_decimals(token0);
    let decimals1 = read_decimals(token1);

    let fee0 = fee_one_token(
        tick_current,
        tick_lower,
        tick_upper,
        liquidity,
        &global0,
        &lower_outside0,
        &upper_outside0,
        &inside_last0,
        decimals0,
    );
    let fee1 = fee_one_token(
        tick_current,
        tick_lower,
        tick_upper,
        liquidity,
        &global1,
        &lower_outside1,
        &upper_outside1,
        &inside_last1,
        decimals1,
    );
    Ok((fee0, fee1))
}

/// Law: the boundary comparison is inclusive below and exclusive above.
/// With the current tick exactly on the lower boundary the in-range form is
/// used (the recorded outside value); exactly on the upper boundary the
/// out-of-range form is used (the complement of the recorded value).
pub proof fn lemma_boundary_asymmetry(
    lower: int,
    upper: int,
    global: nat,
    out_lower: nat,
    out_upper: nat,
)
    ensures
        growth_below(lower, lower, global, out_lower) == out_lower,
        growth_above(upper, upper, global, out_upper) == sub_mod_256(global, out_upper),
{
}

/// Law: swapping the token0/token1 roles of every input swaps the two
/// components of the result and changes nothing else.
pub proof fn lemma_position_fees_symmetric(
    pool: &Pool,
    position: &Position,
    token0: &Option<Token>,
    token1: &Option<Token>,
    swapped_pool: &Pool,
    swapped_position: &Position,
)
    requires
        swapped_pool.tick@ == pool.tick@,
        swapped_pool.fee_growth_global0_x128@ == pool.fee_growth_global1_x128@,
        swapped_pool.fee_growth_global1_x128@ == pool.fee_growth_global0_x128@,
        swapped_position.tick_lower.tick_idx@ == position.tick_lower.tick_idx@,
        swapped_position.tick_upper.tick_idx@ == position.tick_upper.tick_idx@,
        swapped_position.liquidity@ == position.liquidity@,
        swapped_position.tick_lower.fee_growth_outside0_x128@
            == position.tick_lower.fee_growth_outside1_x128@,
        swapped_position.tick_lower.fee_growth_outside1_x128@
            == position.tick_lower.fee_growth_outside0_x128@,
        swapped_position.tick_upper.fee_growth_outside0_x128@
            == position.tick_upper.fee_growth_outside1_x128@,
        swapped_position.tick_upper.fee_growth_outside1_x128@
            == position.tick_upper.fee_growth_outside0_x128@,
        swapped_position.fee_growth_inside0_last_x128@
            == position.fee_growth_inside1_last_x128@,
        swapped_position.fee_growth_inside1_last_x128@
            == position.fee_growth_inside0_last_x128@,
    ensures
        spec_position_fees(swapped_pool, swapped_position, token1, token0).0
            == spec_position_fees(pool, position, token0, token1).1,
        spec_position_fees(swapped_pool, swapped_position, token1, token0).1
            == spec_position_fees(pool, position, token0, token1).0,
{
}

} // verus!

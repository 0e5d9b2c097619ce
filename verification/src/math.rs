//! Arithmetic utilities: scaled multiply-divide, decimal expansion, and the
//! square-root price encoding of the pool protocol.

use vstd::prelude::*;

use crate::errors::CoreError;
use crate::u256::{mul_u128, U256};

verus! {

use vstd::arithmetic::power::pow;
use vstd::arithmetic::power2::pow2;
use vstd::arithmetic::div_mod::lemma_fundamental_div_mod_converse;

/// `n * 10^exp`, `None` when the product leaves 256 bits.
pub fn expand_decimals(n: &U256, exp: u32) -> (r: Option<U256>)
    ensures
        match r {
            Some(s) => s.val() == n.val() * pow(10, exp as nat),
            None => n.val() * pow(10, exp as nat) >= pow2(256),
        },
{
    let mut x = *n;
    let mut i: u32 = 0;
    proof {
        vstd::arithmetic::power::lemma_pow0(10);
        assert(n.val() * pow(10, 0) == n.val()) by (nonlinear_arith)
            requires
                pow(10, 0) == 1,
        ;
    }
    while i < exp
        invariant
            i <= exp,
            x.val() == n.val() * pow(10, i as nat),
        decreases exp - i,
    {
        proof {
            vstd::arithmetic::power::lemma_pow_adds(10, i as nat, 1);
            vstd::arithmetic::power::lemma_pow1(10);
        }
        match x.checked_mul_u64(10) {
            Some(y) => {
                proof {
                    assert(y.val() == n.val() * pow(10, (i + 1) as nat)) by (nonlinear_arith)
                        requires
                            y.val() == x.val() * 10,
                            x.val() == n.val() * pow(10, i as nat),
                            pow(10, (i + 1) as nat) == pow(10, i as nat) * pow(10, 1),
                            pow(10, 1) == 10,
                    ;
                }
                x = y;
            },
            None => {
                proof {
                    vstd::arithmetic::power::lemma_pow_increases(10, (i + 1) as nat, exp as nat);
                    assert(n.val() * pow(10, exp as nat) >= pow2(256)) by (nonlinear_arith)
                        requires
                            x.val() * 10 >= pow2(256),
                            x.val() == n.val() * pow(10, i as nat),
                            pow(10, (i + 1) as nat) == pow(10, i as nat) * pow(10, 1),
                            pow(10, 1) == 10,
                            pow(10, (i + 1) as nat) <= pow(10, exp as nat),
                            n.val() >= 0,
                    ;
                }
                return None;
            },
        }
        i = i + 1;
    }
    Some(x)
}

/// `10^exp` as a 256-bit integer, `None` when it does not fit.
pub fn pow10(exp: u32) -> (r: Option<U256>)
    ensures
        match r {
            Some(s) => s.val() == pow(10, exp as nat),
            None => pow(10, exp as nat) >= pow2(256),
        },
{
    let one = U256::from_u128(1);
    let r = expand_decimals(&one, exp);
    proof {
        assert(1 * pow(10, exp as nat) == pow(10, exp as nat)) by (nonlinear_arith);
    }
    r
}

/// `a * b / divisor` over an exact 256-bit intermediate product, so the
/// multiplication cannot truncate before the division.
pub fn mul_div(a: u128, b: u128, divisor: u128) -> (r: Result<U256, CoreError>)
    ensures
        match r {
            Ok(q) => divisor != 0 && q.val() == (a as nat * b as nat) / divisor as nat,
            Err(e) => e == CoreError::DivideByZero && divisor == 0,
        },
{
    if divisor == 0 {
        return Err(CoreError::DivideByZero);
    }
    let product = mul_u128(a, b);
    let d = U256::from_u128(divisor);
    let (q, rem) = product.div_rem(&d);
    proof {
        lemma_fundamental_div_mod_converse(
            product.val() as int,
            d.val() as int,
            q.val() as int,
            rem.val() as int,
        );
    }
    Ok(q)
}

/// `liquidity * growth / 2^128`, exactly — the scaled multiply-divide of the
/// uncollected-fee formula, whose divisor is the Q128 scale constant.
pub fn mul_div_q128(liquidity: u128, growth: &U256) -> (r: U256)
    ensures
        r.val() == (liquidity as nat * growth.val()) / pow2(128),
{
    let a = mul_u128(liquidity, growth.lo);
    let b = mul_u128(liquidity, growth.hi);
    proof {
        crate::u256::pow2_facts();
        assert(b.val() + a.hi < pow2(256)) by (nonlinear_arith)
            requires
                b.val() == liquidity * growth.hi,
                liquidity <= 0xffffffffffffffffffffffffffffffff,
                growth.hi <= 0xffffffffffffffffffffffffffffffff,
                a.hi <= 0xffffffffffffffffffffffffffffffff,
                pow2(256) == 0x10000000000000000000000000000000000000000000000000000000000000000,
        ;
    }
    let r = match b.checked_add(&U256::from_u128(a.hi)) {
        Some(s) => s,
        None => {
            proof {
                assert(false);
            }
            U256::zero()
        },
    };
    proof {
        crate::u256::pow2_facts();
        assert(liquidity * growth.val() == r.val() * pow2(128) + a.lo) by (nonlinear_arith)
            requires
                growth.val() == (growth.lo + growth.hi * pow2(128)) as nat,
                a.val() == liquidity * growth.lo,
                a.val() == (a.lo + a.hi * pow2(128)) as nat,
                b.val() == liquidity * growth.hi,
                r.val() == b.val() + a.hi,
        ;
        vstd::arithmetic::power2::lemma_pow2_pos(128);
        lemma_fundamental_div_mod_converse(
            (liquidity * growth.val()) as int,
            pow2(128) as int,
            r.val() as int,
            a.lo as int,
        );
    }
    r
}

/// True when `r` is the integer square root of `n`.
pub open spec fn is_sqrt_floor(r: nat, n: nat) -> bool {
    r * r <= n < (r + 1) * (r + 1)
}

/// The integer square root: the largest `r` with `r * r <= n`, found by
/// binary search over the 128-bit candidates.
pub fn isqrt(n: &U256) -> (r: u128)
    ensures
        is_sqrt_floor(r as nat, n.val()),
{
    let mut lo: u128 = 0;
    let mut hi: u128 = u128::MAX;
    proof {
        crate::u256::pow2_facts();
        n.lemma_val_bound();
        assert((0xffffffffffffffffffffffffffffffff + 1) * (0xffffffffffffffffffffffffffffffff + 1)
            == 0x10000000000000000000000000000000000000000000000000000000000000000);
    }
    while lo < hi
        invariant
            lo <= hi,
            lo * lo <= n.val(),
            n.val() < (hi + 1) * (hi + 1),
        decreases hi - lo,
    {
        let mid = lo + (hi - lo) / 2 + (hi - lo) % 2;
        let sq = mul_u128(mid, mid);
        if sq.le(n) {
            lo = mid;
        } else {
            hi = mid - 1;
        }
    }
    lo
}

/// `floor(sqrt(price) * 2^96)` for an integer price: the protocol's compact
/// square-root representation, scaled by the Q96 constant.
pub fn encode_sqrt_price_x96(price: u64) -> (r: u128)
    ensures
        is_sqrt_floor(r as nat, price as nat * pow2(192)),
{
    let hi = (price as u128) * 0x10000000000000000;
    let n = U256 { lo: 0, hi };
    proof {
        crate::u256::pow2_facts();
        assert(n.val() == price * pow2(192)) by (nonlinear_arith)
            requires
                n.lo == 0,
                n.hi == price * 0x10000000000000000,
                n.val() == (n.lo + n.hi * pow2(128)) as nat,
                pow2(128) == 0x100000000000000000000000000000000,
                pow2(192) == 0x10000000000000000 * pow2(128),
        ;
    }
    isqrt(&n)
}

/// The exact price encoded by a Q96 square-root value `x`, scaled by 2^192:
/// `(x / 2^96)^2 * 2^192 == x * x`, with no rounding loss.
pub fn decode_sqrt_price_x96(x: u128) -> (r: U256)
    ensures
        r.val() == x * x,
{
    mul_u128(x, x)
}

/// Law: decoding a Q96 square-root price and encoding the result again gives
/// back the original value exactly, since the decoded price is kept without
/// rounding.
pub proof fn lemma_sqrt_price_round_trip(x: u128, r: nat)
    requires
        is_sqrt_floor(r, (x * x) as nat),
    ensures
        r == x as nat,
{
    if r < x as nat {
        assert((r + 1) * (r + 1) <= x * x) by (nonlinear_arith)
            requires
                r + 1 <= x,
        ;
    }
    if r > x as nat {
        assert(x * x < r * r) by (nonlinear_arith)
            requires
                x < r,
        ;
    }
}

} // verus!

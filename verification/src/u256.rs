//! Fixed-width 256-bit unsigned integers built from two 128-bit halves.
//!
//! Fee-growth counters in the source protocol are 256-bit values that wrap
//! on overflow, so the type offers wrapping subtraction alongside the
//! checked operations the rest of the crate needs.

use vstd::prelude::*;

verus! {

use vstd::arithmetic::power2::{pow2, lemma2_to64, lemma2_to64_rest, lemma_pow2_adds};
use vstd::arithmetic::div_mod::{lemma_fundamental_div_mod, lemma_small_mod};

/// An unsigned 256-bit integer: `lo + hi * 2^128`.
#[derive(Clone, Copy, Debug, PartialEq, Eq, Structural)]
pub struct U256 {
    pub lo: u128,
    pub hi: u128,
}

/// `(a - b) mod 2^256`: subtraction in the 256-bit modular ring.
pub open spec fn sub_mod_256(a: nat, b: nat) -> nat {
    ((a - b) % (pow2(256) as int)) as nat
}

/// Pins the powers of two this crate computes with to literal values.
pub(crate) proof fn pow2_facts()
    ensures
        pow2(63) == 0x8000000000000000,
        pow2(64) == 0x10000000000000000,
        pow2(127) == 0x80000000000000000000000000000000,
        pow2(128) == 0x100000000000000000000000000000000,
        pow2(192) == 0x1000000000000000000000000000000000000000000000000,
        pow2(255)
            == 0x8000000000000000000000000000000000000000000000000000000000000000,
        pow2(256)
            == 0x10000000000000000000000000000000000000000000000000000000000000000,
{
    lemma2_to64();
    lemma2_to64_rest();
    lemma_pow2_adds(63, 64);
    lemma_pow2_adds(64, 64);
    lemma_pow2_adds(64, 128);
    lemma_pow2_adds(127, 128);
    lemma_pow2_adds(128, 128);
    assert(0x80000000000000000000000000000000 * 0x100000000000000000000000000000000
        == 0x8000000000000000000000000000000000000000000000000000000000000000)
        by (nonlinear_arith);
    assert(0x100000000000000000000000000000000 * 0x100000000000000000000000000000000
        == 0x10000000000000000000000000000000000000000000000000000000000000000)
        by (nonlinear_arith);
}

impl U256 {
    /// The mathematical value of this 256-bit integer.
    pub open spec fn val(&self) -> nat {
        (self.lo + self.hi * pow2(128)) as nat
    }

    /// Every `U256` value lies below `2^256`.
    pub proof fn lemma_val_bound(&self)
        ensures
            self.val() < pow2(256),
    {
        pow2_facts();
        assert(self.hi * pow2(128) <= 0xffffffffffffffffffffffffffffffff * pow2(128))
            by (nonlinear_arith)
            requires
                self.hi <= 0xffffffffffffffffffffffffffffffff,
                pow2(128) >= 0,
        ;
    }

    pub fn zero() -> (r: U256)
        ensures
            r.val() == 0,
    {
        U256 { lo: 0, hi: 0 }
    }

    pub fn from_u128(x: u128) -> (r: U256)
        ensures
            r.val() == x,
    {
        U256 { lo: x, hi: 0 }
    }

    /// The value as a `u128`, when it fits.
    pub fn to_u128(&self) -> (r: Option<u128>)
        ensures
            match r {
                Some(x) => self.val() == x,
                None => self.val() >= pow2(128),
            },
    {
        proof {
            pow2_facts();
            if self.hi != 0 {
                assert(self.hi * pow2(128) >= pow2(128)) by (nonlinear_arith)
                    requires
                        self.hi >= 1,
                        pow2(128) >= 0,
                ;
            }
        }
        if self.hi == 0 {
            Some(self.lo)
        } else {
            None
        }
    }

    pub fn is_zero(&self) -> (r: bool)
        ensures
            r <==> self.val() == 0,
    {
        proof {
            pow2_facts();
            if self.hi != 0 {
                assert(self.hi * pow2(128) >= pow2(128)) by (nonlinear_arith)
                    requires
                        self.hi >= 1,
                        pow2(128) >= 0,
                ;
            }
        }
        self.lo == 0 && self.hi == 0
    }

    /// Lexicographic comparison of the halves decides the value order.
    proof fn lemma_order(a: &U256, b: &U256)
        ensures
            a.val() < b.val() <==> (a.hi < b.hi || (a.hi == b.hi && a.lo < b.lo)),
    {
        pow2_facts();
        if a.hi < b.hi {
            assert((a.hi + 1) * pow2(128) <= b.hi * pow2(128)) by (nonlinear_arith)
                requires
                    a.hi + 1 <= b.hi,
                    pow2(128) >= 0,
            ;
        }
        if b.hi < a.hi {
            assert((b.hi + 1) * pow2(128) <= a.hi * pow2(128)) by (nonlinear_arith)
                requires
                    b.hi + 1 <= a.hi,
                    pow2(128) >= 0,
            ;
        }
    }

    pub fn le(&self, other: &U256) -> (r: bool)
        ensures
            r <==> self.val() <= other.val(),
    {
        proof {
            Self::lemma_order(self, other);
            Self::lemma_order(other, self);
        }
        if self.hi != other.hi {
            self.hi < other.hi
        } else {
            self.lo <= other.lo
        }
    }

    pub fn lt(&self, other: &U256) -> (r: bool)
        ensures
            r <==> self.val() < other.val(),
    {
        proof {
            Self::lemma_order(self, other);
        }
        if self.hi != other.hi {
            self.hi < other.hi
        } else {
            self.lo < other.lo
        }
    }

    /// Addition, `None` when the sum does not fit in 256 bits.
    pub fn checked_add(&self, other: &U256) -> (r: Option<U256>)
        ensures
            match r {
                Some(s) => s.val() == self.val() + other.val(),
                None => self.val() + other.val() >= pow2(256),
            },
    {
        proof {
            pow2_facts();
        }
        let (lo, carry): (u128, u128) = if self.lo <= u128::MAX - other.lo {
            (self.lo + other.lo, 0)
        } else {
            ((self.lo - (u128::MAX - other.lo)) - 1, 1)
        };
        if self.hi <= u128::MAX - carry && other.hi <= u128::MAX - (self.hi + carry) {
            let hi = self.hi + other.hi + carry;
            let s = U256 { lo, hi };
            proof {
                assert(s.val() == self.val() + other.val()) by {
                    pow2_facts();
                    assert((self.hi + other.hi + carry) * pow2(128)
                        == self.hi * pow2(128) + other.hi * pow2(128) + carry * pow2(128))
                        by (nonlinear_arith);
                }
            }
            Some(s)
        } else {
            proof {
                pow2_facts();
                assert((self.hi + other.hi + carry) * pow2(128) >= pow2(128) * pow2(128))
                    by (nonlinear_arith)
                    requires
                        self.hi + other.hi + carry >= pow2(128),
                        pow2(128) >= 0,
                ;
            }
            None
        }
    }

    /// Subtraction for the case the difference is non-negative.
    pub fn sub(&self, other: &U256) -> (r: U256)
        requires
            other.val() <= self.val(),
        ensures
            r.val() == self.val() - other.val(),
    {
        proof {
            pow2_facts();
            Self::lemma_order(self, other);
        }
        let (lo, borrow): (u128, u128) = if self.lo >= other.lo {
            (self.lo - other.lo, 0)
        } else {
            ((u128::MAX - other.lo) + self.lo + 1, 1)
        };
        let hi = self.hi - other.hi - borrow;
        proof {
            assert((self.hi - other.hi - borrow) * pow2(128)
                == self.hi * pow2(128) - other.hi * pow2(128) - borrow * pow2(128))
                by (nonlinear_arith);
        }
        U256 { lo, hi }
    }

    /// Subtraction in the 256-bit modular ring, as the protocol's
    /// fee-growth counters require.
    pub fn wrapping_sub(&self, other: &U256) -> (r: U256)
        ensures
            r.val() == sub_mod_256(self.val(), other.val()),
    {
        proof {
            pow2_facts();
            Self::lemma_order(self, other);
        }
        if other.le(self) {
            let r = self.sub(other);
            proof {
                r.lemma_val_bound();
                lemma_small_mod((self.val() - other.val()) as nat, pow2(256));
            }
            r
        } else {
            // self < other: the wrapped difference is `self - other + 2^256`.
            let (lo, borrow): (u128, u128) = if self.lo >= other.lo {
                (self.lo - other.lo, 0)
            } else {
                ((u128::MAX - other.lo) + self.lo + 1, 1)
            };
            // `self < other` forces the high half to wrap as well.
            let hi = (u128::MAX - other.hi) + self.hi + (1 - borrow);
            let r = U256 { lo, hi };
            proof {
                assert(r.val() == self.val() - other.val() + pow2(256)) by {
                    pow2_facts();
                    assert(hi * pow2(128) == (self.hi - other.hi - borrow + pow2(128)) * pow2(
                        128,
                    )) by (nonlinear_arith)
                        requires
                            hi == self.hi - other.hi - borrow + pow2(128),
                    ;
                    assert((self.hi - other.hi - borrow + pow2(128)) * pow2(128)
                        == self.hi * pow2(128) - other.hi * pow2(128) - borrow * pow2(128) + pow2(
                        128,
                    ) * pow2(128)) by (nonlinear_arith);
                }
                r.lemma_val_bound();
                assert((self.val() - other.val() + pow2(256)) % (pow2(256) as int) == (self.val()
                    - other.val()) % (pow2(256) as int)) by {
                    vstd::arithmetic::div_mod::lemma_mod_add_multiples_vanish(
                        self.val() - other.val(),
                        pow2(256) as int,
                    );
                }
                lemma_small_mod(r.val(), pow2(256));
            }
            r
        }
    }
}

/// The exact 256-bit product of two 128-bit integers.
pub fn mul_u128(a: u128, b: u128) -> (r: U256)
    ensures
        r.val() == a * b,
{
    let t64: u128 = 0x10000000000000000;
    let a0 = a % t64;
    let a1 = a / t64;
    let b0 = b % t64;
    let b1 = b / t64;
    proof {
        pow2_facts();
        assert(a0 * b0 < 0x100000000000000000000000000000000 && a0 * b1
            < 0x100000000000000000000000000000000 && a1 * b0
            < 0x100000000000000000000000000000000 && a1 * b1
            < 0x100000000000000000000000000000000) by (nonlinear_arith)
            requires
                a0 < 0x10000000000000000,
                a1 < 0x10000000000000000,
                b0 < 0x10000000000000000,
                b1 < 0x10000000000000000,
        ;
    }
    let p00 = a0 * b0;
    let p01 = a0 * b1;
    let p10 = a1 * b0;
    let p11 = a1 * b1;
    let r0 = p00 % t64;
    let t1 = p00 / t64 + p01 % t64 + p10 % t64;
    let r1 = t1 % t64;
    let t2 = t1 / t64 + p01 / t64 + p10 / t64 + p11 % t64;
    let r2 = t2 % t64;
    let t3 = t2 / t64 + p11 / t64;
    proof {
        pow2_facts();
        // The four partial products reassemble to the full product.
        assert(a * b == p00 + p01 * 0x10000000000000000 + p10 * 0x10000000000000000 + p11
            * 0x100000000000000000000000000000000) by (nonlinear_arith)
            requires
                a == a1 * 0x10000000000000000 + a0,
                b == b1 * 0x10000000000000000 + b0,
                p00 == a0 * b0,
                p01 == a0 * b1,
                p10 == a1 * b0,
                p11 == a1 * b1,
        ;
        assert(a * b < 0x10000000000000000000000000000000000000000000000000000000000000000)
            by (nonlinear_arith)
            requires
                a <= 0xffffffffffffffffffffffffffffffff,
                b <= 0xffffffffffffffffffffffffffffffff,
        ;
        lemma_fundamental_div_mod(p00 as int, t64 as int);
        lemma_fundamental_div_mod(p01 as int, t64 as int);
        lemma_fundamental_div_mod(p10 as int, t64 as int);
        lemma_fundamental_div_mod(p11 as int, t64 as int);
        lemma_fundamental_div_mod(t1 as int, t64 as int);
        lemma_fundamental_div_mod(t2 as int, t64 as int);
    }
    let lo = r0 + r1 * t64;
    let hi = r2 + t3 * t64;
    proof {
        pow2_facts();
    }
    U256 { lo, hi }
}

impl U256 {
    /// Multiplication by a small factor, `None` when the product does not
    /// fit in 256 bits.
    pub fn checked_mul_u64(&self, m: u64) -> (r: Option<U256>)
        ensures
            match r {
                Some(s) => s.val() == self.val() * m,
                None => self.val() * m >= pow2(256),
            },
    {
        let t64: u128 = 0x10000000000000000;
        let mw = m as u128;
        let x0 = self.lo % t64;
        let x1 = self.lo / t64;
        let x2 = self.hi % t64;
        let x3 = self.hi / t64;
        proof {
            pow2_facts();
            assert(x0 * mw <= 0xfffffffffffffffe0000000000000001 && x1 * mw
                <= 0xfffffffffffffffe0000000000000001 && x2 * mw
                <= 0xfffffffffffffffe0000000000000001 && x3 * mw
                <= 0xfffffffffffffffe0000000000000001) by (nonlinear_arith)
                requires
                    x0 < 0x10000000000000000,
                    x1 < 0x10000000000000000,
                    x2 < 0x10000000000000000,
                    x3 < 0x10000000000000000,
                    mw < 0x10000000000000000,
            ;
        }
        let p0 = x0 * mw;
        let p1 = x1 * mw;
        let p2 = x2 * mw;
        let p3 = x3 * mw;
        let r0 = p0 % t64;
        let t1 = p0 / t64 + p1;
        let r1 = t1 % t64;
        let t2 = t1 / t64 + p2;
        let r2 = t2 % t64;
        let t3 = t2 / t64 + p3;
        let r3 = t3 % t64;
        let carry = t3 / t64;
        proof {
            pow2_facts();
            assert(self.val() * mw == p0 + p1 * 0x10000000000000000 + p2
                * 0x100000000000000000000000000000000 + p3
                * 0x1000000000000000000000000000000000000000000000000) by (nonlinear_arith)
                requires
                    self.val() == (self.lo + self.hi * pow2(128)) as nat,
                    pow2(128) == 0x100000000000000000000000000000000,
                    self.lo == x1 * 0x10000000000000000 + x0,
                    self.hi == x3 * 0x10000000000000000 + x2,
                    p0 == x0 * mw,
                    p1 == x1 * mw,
                    p2 == x2 * mw,
                    p3 == x3 * mw,
            ;
            lemma_fundamental_div_mod(p0 as int, t64 as int);
            lemma_fundamental_div_mod(t1 as int, t64 as int);
            lemma_fundamental_div_mod(t2 as int, t64 as int);
            lemma_fundamental_div_mod(t3 as int, t64 as int);
        }
        if carry != 0 {
            None
        } else {
            let lo = r0 + r1 * t64;
            let hi = r2 + r3 * t64;
            Some(U256 { lo, hi })
        }
    }

    /// Doubling in the 256-bit modular ring; also reports the top bit that
    /// was shifted out.
    fn double_top(&self) -> (r: (U256, bool))
        ensures
            r.0.val() == (2 * self.val()) % pow2(256),
            r.1 <==> self.val() >= pow2(255),
    {
        let half: u128 = 0x80000000000000000000000000000000;
        let top = self.hi >= half;
        let carry_lo: u128 = if self.lo >= half {
            1
        } else {
            0
        };
        let new_lo = (self.lo % half) * 2 + carry_lo;
        let new_hi = (self.hi % half) * 2;
        let r = U256 { lo: new_lo - carry_lo, hi: new_hi + carry_lo };
        proof {
            pow2_facts();
            let q_lo: int = if self.lo >= half {
                1
            } else {
                0
            };
            let q_hi: int = if self.hi >= half {
                1
            } else {
                0
            };
            assert(r.val() == 2 * self.val() - q_hi * pow2(256));
            r.lemma_val_bound();
            if top {
                vstd::arithmetic::div_mod::lemma_mod_add_multiples_vanish(
                    2 * self.val() - pow2(256),
                    pow2(256) as int,
                );
                lemma_small_mod(r.val(), pow2(256));
            } else {
                lemma_small_mod(r.val(), pow2(256));
            }
        }
        (r, top)
    }

    /// Doubling plus a carry bit, for values that stay inside 256 bits.
    fn double_add(&self, bit: bool) -> (r: U256)
        requires
            self.val() < pow2(255),
        ensures
            r.val() == 2 * self.val() + (if bit {
                1int
            } else {
                0int
            }),
    {
        let half: u128 = 0x80000000000000000000000000000000;
        let b: u128 = if bit {
            1
        } else {
            0
        };
        proof {
            pow2_facts();
            assert(self.hi < half) by {
                if self.hi >= half {
                    assert(self.hi * pow2(128) >= half * pow2(128)) by (nonlinear_arith)
                        requires
                            self.hi >= half,
                            pow2(128) >= 0,
                    ;
                }
            }
        }
        let carry_lo: u128 = if self.lo >= half {
            1
        } else {
            0
        };
        let new_lo = (self.lo % half) * 2 + b;
        let new_hi = self.hi * 2 + carry_lo;
        U256 { lo: new_lo, hi: new_hi }
    }

    /// Floor division with remainder: `self == q * d + r` and `r < d`.
    pub fn div_rem(&self, d: &U256) -> (qr: (U256, U256))
        requires
            d.val() > 0,
        ensures
            self.val() == qr.0.val() * d.val() + qr.1.val(),
            qr.1.val() < d.val(),
    {
        proof {
            pow2_facts();
        }
        let half: u128 = 0x80000000000000000000000000000000;
        if d.hi >= half {
            // A divisor of at least 2^255 admits a quotient of at most 1.
            proof {
                assert(d.hi * pow2(128) >= half * pow2(128)) by (nonlinear_arith)
                    requires
                        d.hi >= half,
                        pow2(128) >= 0,
                ;
                self.lemma_val_bound();
            }
            if self.lt(d) {
                let q = U256::zero();
                proof {
                    assert(q.val() * d.val() == 0) by (nonlinear_arith)
                        requires
                            q.val() == 0,
                    ;
                }
                (q, *self)
            } else {
                let q = U256::from_u128(1);
                let r = self.sub(d);
                proof {
                    assert(q.val() * d.val() == d.val()) by (nonlinear_arith)
                        requires
                            q.val() == 1,
                    ;
                }
                (q, r)
            }
        } else {
            proof {
                assert(d.hi * pow2(128) <= (half - 1) * pow2(128)) by (nonlinear_arith)
                    requires
                        d.hi <= half - 1,
                        pow2(128) >= 0,
                ;
            }
            let mut q = U256::zero();
            let mut r = U256::zero();
            let mut nn = *self;
            let mut i: usize = 0;
            let ghost mut top: nat = 0;
            let ghost mut rest: nat = self.val();
            proof {
                self.lemma_val_bound();
                assert(self.val() == top * pow2(256) + rest) by (nonlinear_arith)
                    requires
                        top == 0,
                        rest == self.val(),
                ;
                lemma2_to64();
                assert(rest * pow2(0) == rest) by (nonlinear_arith)
                    requires
                        pow2(0) == 1,
                ;
            }
            while i < 256
                invariant
                    i <= 256,
                    d.val() > 0,
                    d.val() < pow2(255),
                    self.val() == top * pow2((256 - i) as nat) + rest,
                    rest < pow2((256 - i) as nat),
                    nn.val() == rest * pow2(i as nat),
                    top == q.val() * d.val() + r.val(),
                    r.val() < d.val(),
                    q.val() < pow2(i as nat),
                decreases 256 - i,
            {
                proof {
                    pow2_facts();
                    lemma2_to64();
                    vstd::arithmetic::power2::lemma_pow2_strictly_increases(i as nat, 256);
                    if i < 255 {
                        vstd::arithmetic::power2::lemma_pow2_strictly_increases(i as nat, 255);
                    }
                    lemma_pow2_adds((255 - i) as nat, 1);
                    lemma_pow2_adds((255 - i) as nat, i as nat);
                    lemma_pow2_adds(i as nat, 1);
                    lemma_pow2_adds(255, 1);
                }
                let (nn2, bit) = nn.double_top();
                let ghost bitv: nat = if bit {
                    1
                } else {
                    0
                };
                proof {
                    // The top bit of `nn` is the next bit of `rest`.
                    assert(nn.val() >= pow2(255) <==> rest >= pow2((255 - i) as nat))
                        by (nonlinear_arith)
                        requires
                            nn.val() == rest * pow2(i as nat),
                            pow2(255) == pow2((255 - i) as nat) * pow2(i as nat),
                            pow2(i as nat) > 0,
                            rest < pow2((256 - i) as nat),
                            pow2((256 - i) as nat) == 2 * pow2((255 - i) as nat),
                    ;
                }
                let ghost new_rest: nat = (rest - bitv * pow2((255 - i) as nat)) as nat;
                proof {
                    assert(bitv * pow2((255 - i) as nat) <= rest) by (nonlinear_arith)
                        requires
                            bitv == 0 || (bitv == 1 && rest >= pow2((255 - i) as nat)),
                    ;
                    assert(new_rest < pow2((255 - i) as nat)) by (nonlinear_arith)
                        requires
                            new_rest == rest - bitv * pow2((255 - i) as nat),
                            rest < 2 * pow2((255 - i) as nat),
                            bitv == 1 || rest < pow2((255 - i) as nat),
                            bitv == 0 || bitv == 1,
                    ;
                    // nn2 carries the remaining bits, shifted one further.
                    assert(nn2.val() == new_rest * pow2((i + 1) as nat)) by (nonlinear_arith)
                        requires
                            nn2.val() == (2 * nn.val()) % pow2(256),
                            nn.val() == rest * pow2(i as nat),
                            new_rest == rest - bitv * pow2((255 - i) as nat),
                            pow2(256) == pow2((255 - i) as nat) * pow2(i as nat) * 2,
                            pow2((i + 1) as nat) == 2 * pow2(i as nat),
                            bitv == (if nn.val() >= pow2(255) {
                                1nat
                            } else {
                                0nat
                            }),
                            pow2(255) == pow2((255 - i) as nat) * pow2(i as nat),
                            new_rest < pow2((255 - i) as nat),
                            nn.val() < pow2(256),
                            pow2(i as nat) > 0,
                    ;
                    // The top accumulator absorbs the bit.
                    assert(self.val() == (2 * top + bitv) * pow2((255 - i) as nat) + new_rest)
                        by (nonlinear_arith)
                        requires
                            self.val() == top * pow2((256 - i) as nat) + rest,
                            new_rest == rest - bitv * pow2((255 - i) as nat),
                            pow2((256 - i) as nat) == 2 * pow2((255 - i) as nat),
                    ;
                }
                let r2 = r.double_add(bit);
                proof {
                    vstd::arithmetic::power2::lemma_pow2_pos((255 - i) as nat);
                }
                if d.le(&r2) {
                    r = r2.sub(d);
                    proof {
                        assert(q.val() * d.val() < pow2(255) * pow2(255)) by (nonlinear_arith)
                            requires
                                q.val() < pow2(255),
                                d.val() < pow2(255),
                                q.val() >= 0,
                                d.val() > 0,
                        ;
                    }
                    let q2 = q.double_add(true);
                    proof {
                        assert(q2.val() * d.val() + r.val() == 2 * top + bitv) by (nonlinear_arith)
                            requires
                                q2.val() == 2 * q.val() + 1,
                                r.val() == 2 * (top - q.val() * d.val()) + bitv - d.val(),
                                top == q.val() * d.val() + (top - q.val() * d.val()),
                        ;
                    }
                    q = q2;
                } else {
                    let q2 = q.double_add(false);
                    proof {
                        assert(q2.val() * d.val() + r2.val() == 2 * top + bitv) by (nonlinear_arith)
                            requires
                                q2.val() == 2 * q.val(),
                                r2.val() == 2 * (top - q.val() * d.val()) + bitv,
                                top == q.val() * d.val() + (top - q.val() * d.val()),
                        ;
                    }
                    r = r2;
                    q = q2;
                }
                proof {
                    top = 2 * top + bitv;
                    rest = new_rest;
                    assert(q.val() < pow2((i + 1) as nat));
                }
                nn = nn2;
                i = i + 1;
            }
            proof {
                assert(rest == 0) by {
                    lemma2_to64();
                }
                assert(self.val() == top) by {
                    lemma2_to64();
                    assert(top * pow2(0) == top) by (nonlinear_arith)
                        requires
                            pow2(0) == 1,
                    ;
                }
            }
            (q, r)
        }
    }
}

} // verus!

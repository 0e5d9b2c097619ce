//! Verified parsers for the decimal strings the data source delivers:
//! unsigned integers of up to 256 bits, signed 32-bit tick indices, and
//! decimal fractions read into 10^18-scaled fixed-point mantissas.

use vstd::prelude::*;

use crate::u256::U256;

verus! {

use vstd::arithmetic::power::pow;
use vstd::arithmetic::power2::pow2;
use vstd::string::StrSliceExecFns;

/// Mantissas of decimal quantities are scaled by `10^18`.
pub const FIXED_SCALE: u128 = 1000000000000000000;

/// Why a numeric string was rejected.
#[derive(Clone, Copy, Debug, PartialEq, Eq, Structural)]
pub enum NumErr {
    /// The text is not a number of the expected shape.
    Malformed,
    /// The number is well-formed but does not fit the target width.
    TooLarge,
}

pub open spec fn is_digit(c: char) -> bool {
    '0' <= c && c <= '9'
}

pub open spec fn digit_val(c: char) -> nat {
    (c as u32 - 48) as nat
}

pub open spec fn all_digits(s: Seq<char>) -> bool {
    forall|i: int| 0 <= i < s.len() ==> is_digit(#[trigger] s[i])
}

/// A non-empty run of decimal digits.
pub open spec fn is_uint_str(s: Seq<char>) -> bool {
    s.len() > 0 && all_digits(s)
}

/// The value of a digit run, most significant digit first.
pub open spec fn digits_val(s: Seq<char>) -> nat
    decreases s.len(),
{
    if s.len() == 0 {
        0
    } else {
        digits_val(s.drop_last()) * 10 + digit_val(s.last())
    }
}

/// An optionally negated digit run.
pub open spec fn is_int_str(s: Seq<char>) -> bool {
    if s.len() > 0 && s[0] == '-' {
        is_uint_str(s.skip(1))
    } else {
        is_uint_str(s)
    }
}

pub open spec fn int_str_val(s: Seq<char>) -> int {
    if s.len() > 0 && s[0] == '-' {
        -(digits_val(s.skip(1)) as int)
    } else {
        digits_val(s) as int
    }
}

/// A serialized signed 32-bit integer.
pub open spec fn valid_i32_field(s: Seq<char>) -> bool {
    is_int_str(s) && i32::MIN <= int_str_val(s) <= i32::MAX
}

/// The index of the first `'.'`, or the length when there is none.
pub open spec fn first_dot(s: Seq<char>) -> int
    decreases s.len(),
{
    if s.len() == 0 {
        0
    } else if s[0] == '.' {
        0
    } else {
        1 + first_dot(s.skip(1))
    }
}

/// `first_dot` returns the least index holding a dot.
pub proof fn lemma_first_dot(s: Seq<char>)
    ensures
        0 <= first_dot(s) <= s.len(),
        forall|j: int| 0 <= j < first_dot(s) ==> #[trigger] s[j] != '.',
        first_dot(s) < s.len() ==> s[first_dot(s)] == '.',
    decreases s.len(),
{
    if s.len() > 0 && s[0] != '.' {
        lemma_first_dot(s.skip(1));
        assert forall|j: int| 0 <= j < first_dot(s) implies #[trigger] s[j] != '.' by {
            if j >= 1 {
                assert(s[j] == s.skip(1)[j - 1]);
            }
        }
    }
}

/// Digits, optionally followed by a dot and more digits.
pub open spec fn is_decimal_str(s: Seq<char>) -> bool {
    let d = first_dot(s);
    if d == s.len() {
        is_uint_str(s)
    } else {
        is_uint_str(s.take(d)) && is_uint_str(s.skip(d + 1))
    }
}

/// The value of a fractional digit run, scaled to 18 places; digits beyond
/// the eighteenth are truncated.
pub open spec fn frac_mantissa(frac: Seq<char>) -> nat {
    if frac.len() >= 18 {
        digits_val(frac.take(18))
    } else {
        (digits_val(frac) * pow(10, (18 - frac.len()) as nat)) as nat
    }
}

/// The 10^18-scaled mantissa a decimal string denotes.
pub open spec fn decimal_mantissa(s: Seq<char>) -> nat {
    let d = first_dot(s);
    if d == s.len() {
        digits_val(s) * (FIXED_SCALE as nat)
    } else {
        digits_val(s.take(d)) * (FIXED_SCALE as nat) + frac_mantissa(s.skip(d + 1))
    }
}

/// A digit run's value never shrinks when the run is extended.
proof fn lemma_digits_val_prefix(s: Seq<char>, i: int, j: int)
    requires
        0 <= i <= j <= s.len(),
    ensures
        digits_val(s.subrange(0, i)) <= digits_val(s.subrange(0, j)),
    decreases j - i,
{
    if i < j {
        lemma_digits_val_prefix(s, i, j - 1);
        assert(s.subrange(0, j).drop_last() =~= s.subrange(0, j - 1));
    }
}

/// Scans `s[from..to]` for non-digits.
fn scan_digits(s: &str, from: usize, to: usize) -> (ok: bool)
    requires
        s.is_ascii(),
        from <= to <= s@.len(),
    ensures
        ok <==> all_digits(s@.subrange(from as int, to as int)),
{
    let ghost sub = s@.subrange(from as int, to as int);
    let mut i = from;
    while i < to
        invariant
            s.is_ascii(),
            from <= i <= to <= s@.len(),
            sub == s@.subrange(from as int, to as int),
            forall|j: int| 0 <= j < i - from ==> is_digit(#[trigger] sub[j]),
        decreases to - i,
    {
        let b = s.get_ascii(i);
        if b < 48 || b > 57 {
            proof {
                assert(sub[i - from] == s@[i as int]);
                assert(!is_digit(sub[i - from]));
            }
            return false;
        }
        proof {
            assert(sub[i - from] == s@[i as int]);
        }
        i = i + 1;
    }
    true
}

/// Reads `s[from..to]` as a 256-bit integer; `None` when the value does not
/// fit.
fn digits_to_u256(s: &str, from: usize, to: usize) -> (r: Option<U256>)
    requires
        s.is_ascii(),
        from <= to <= s@.len(),
        all_digits(s@.subrange(from as int, to as int)),
    ensures
        match r {
            Some(v) => v.val() == digits_val(s@.subrange(from as int, to as int)),
            None => digits_val(s@.subrange(from as int, to as int)) >= pow2(256),
        },
{
    let ghost sub = s@.subrange(from as int, to as int);
    let mut acc = U256::zero();
    let mut i = from;
    proof {
        assert(sub.subrange(0, 0) =~= Seq::<char>::empty());
    }
    while i < to
        invariant
            s.is_ascii(),
            from <= i <= to <= s@.len(),
            sub == s@.subrange(from as int, to as int),
            all_digits(sub),
            acc.val() == digits_val(sub.subrange(0, i - from)),
        decreases to - i,
    {
        let b = s.get_ascii(i);
        proof {
            assert(sub[i - from] == s@[i as int]);
            assert(is_digit(sub[i - from]));
        }
        let d = (b - 48) as u64;
        proof {
            assert(sub.subrange(0, i - from + 1).drop_last() =~= sub.subrange(0, i - from));
            assert(sub.subrange(0, i - from + 1).last() == sub[i - from]);
        }
        let shifted = match acc.checked_mul_u64(10) {
            Some(x) => x,
            None => {
                proof {
                    lemma_too_large_u256(sub, i - from + 1);
                }
                return None;
            },
        };
        let acc2 = match shifted.checked_add(&U256::from_u128(d as u128)) {
            Some(x) => x,
            None => {
                proof {
                    lemma_too_large_u256(sub, i - from + 1);
                }
                return None;
            },
        };
        acc = acc2;
        i = i + 1;
    }
    proof {
        assert(sub.subrange(0, sub.len() as int) =~= sub);
    }
    Some(acc)
}

/// When a prefix of the digits already reaches `2^256`, so does the whole run.
proof fn lemma_too_large_u256(sub: Seq<char>, upto: int)
    requires
        0 < upto <= sub.len(),
        digits_val(sub.subrange(0, upto)) >= pow2(256),
    ensures
        digits_val(sub) >= pow2(256),
{
    lemma_digits_val_prefix(sub, upto, sub.len() as int);
    assert(sub.subrange(0, sub.len() as int) =~= sub);
}

/// When a prefix of the digits already exceeds `u128::MAX`, so does the
/// whole run.
proof fn lemma_too_large_u128(sub: Seq<char>, upto: int)
    requires
        0 < upto <= sub.len(),
        digits_val(sub.subrange(0, upto)) > u128::MAX,
    ensures
        digits_val(sub) > u128::MAX,
{
    lemma_digits_val_prefix(sub, upto, sub.len() as int);
    assert(sub.subrange(0, sub.len() as int) =~= sub);
}

/// A run of `n` digits denotes a value below `10^n`.
proof fn lemma_digits_val_bound(s: Seq<char>)
    requires
        all_digits(s),
    ensures
        digits_val(s) < pow(10, s.len()),
    decreases s.len(),
{
    vstd::arithmetic::power::lemma_pow_adds(10, (s.len() - 1) as nat, 1);
    vstd::arithmetic::power::lemma_pow1(10);
    if s.len() == 0 {
        vstd::arithmetic::power::lemma_pow0(10);
    } else {
        lemma_digits_val_bound(s.drop_last());
        assert(digits_val(s.drop_last()) * 10 + digit_val(s.last()) < pow(
            10,
            (s.len() - 1) as nat,
        ) * 10) by (nonlinear_arith)
            requires
                digits_val(s.drop_last()) < pow(10, (s.len() - 1) as nat),
                digit_val(s.last()) <= 9,
        ;
    }
}

/// Pins the small powers of ten the fixed-point parser computes with.
proof fn pow10_vals()
    ensures
        pow(10, 0) == 1,
        pow(10, 17) == 100000000000000000,
        pow(10, 18) == 1000000000000000000,
{
    reveal_with_fuel(pow, 20);
}

/// `10^e` for the small exponents of fractional padding.
fn pow10_u128(e: u32) -> (r: u128)
    requires
        e <= 18,
    ensures
        r == pow(10, e as nat),
{
    let mut r: u128 = 1;
    let mut i: u32 = 0;
    proof {
        pow10_vals();
    }
    while i < e
        invariant
            i <= e <= 18,
            r == pow(10, i as nat),
        decreases e - i,
    {
        proof {
            pow10_vals();
            vstd::arithmetic::power::lemma_pow_adds(10, i as nat, 1);
            vstd::arithmetic::power::lemma_pow1(10);
            vstd::arithmetic::power::lemma_pow_increases(10, i as nat, 17);
        }
        r = r * 10;
        i = i + 1;
    }
    r
}

/// Reads `s[from..to]` as a 128-bit integer; `None` when the value does not
/// fit.
fn digits_to_u128(s: &str, from: usize, to: usize) -> (r: Option<u128>)
    requires
        s.is_ascii(),
        from <= to <= s@.len(),
        all_digits(s@.subrange(from as int, to as int)),
    ensures
        match r {
            Some(v) => v == digits_val(s@.subrange(from as int, to as int)),
            None => digits_val(s@.subrange(from as int, to as int)) > u128::MAX,
        },
{
    let ghost sub = s@.subrange(from as int, to as int);
    let mut acc: u128 = 0;
    let mut i = from;
    proof {
        assert(sub.subrange(0, 0) =~= Seq::<char>::empty());
    }
    while i < to
        invariant
            s.is_ascii(),
            from <= i <= to <= s@.len(),
            sub == s@.subrange(from as int, to as int),
            all_digits(sub),
            acc == digits_val(sub.subrange(0, i - from)),
        decreases to - i,
    {
        let b = s.get_ascii(i);
        proof {
            assert(sub[i - from] == s@[i as int]);
            assert(is_digit(sub[i - from]));
            assert(sub.subrange(0, i - from + 1).drop_last() =~= sub.subrange(0, i - from));
            assert(sub.subrange(0, i - from + 1).last() == sub[i - from]);
        }
        let d = (b - 48) as u128;
        let shifted = match acc.checked_mul(10) {
            Some(x) => x,
            None => {
                proof {
                    lemma_too_large_u128(sub, i - from + 1);
                }
                return None;
            },
        };
        let acc2 = match shifted.checked_add(d) {
            Some(x) => x,
            None => {
                proof {
                    lemma_too_large_u128(sub, i - from + 1);
                }
                return None;
            },
        };
        acc = acc2;
        i = i + 1;
    }
    proof {
        assert(sub.subrange(0, sub.len() as int) =~= sub);
    }
    Some(acc)
}

/// A string that is not ASCII cannot be a digit run.
proof fn lemma_non_ascii_not_digits(s: Seq<char>)
    requires
        !vstd::utf8::is_ascii_chars(s),
    ensures
        !all_digits(s),
{
    if all_digits(s) {
        assert forall|i: int| 0 <= i < s.len() implies '\0' <= #[trigger] s[i] <= '\u{7f}' by {
            assert(is_digit(s[i]));
        }
    }
}

/// Parses a non-empty digit run into a 256-bit integer.
pub fn parse_u256(s: &str) -> (r: Result<U256, NumErr>)
    ensures
        r is Ok <==> is_uint_str(s@) && digits_val(s@) < pow2(256),
        (match r {
            Ok(v) => v.val() == digits_val(s@),
            Err(e) => (e == NumErr::Malformed <==> !is_uint_str(s@)) && (e == NumErr::TooLarge
                <==> is_uint_str(s@) && digits_val(s@) >= pow2(256)),
        }),
{
    if !s.is_ascii() {
        proof {
            lemma_non_ascii_not_digits(s@);
        }
        return Err(NumErr::Malformed);
    }
    let n = s.unicode_len();
    if n == 0 {
        return Err(NumErr::Malformed);
    }
    proof {
        assert(s@.subrange(0, n as int) =~= s@);
    }
    if !scan_digits(s, 0, n) {
        return Err(NumErr::Malformed);
    }
    match digits_to_u256(s, 0, n) {
        Some(v) => {
            proof {
                v.lemma_val_bound();
            }
            Ok(v)
        },
        None => Err(NumErr::TooLarge),
    }
}

/// Parses a non-empty digit run into a 128-bit integer.
pub fn parse_u128(s: &str) -> (r: Result<u128, NumErr>)
    ensures
        r is Ok <==> is_uint_str(s@) && digits_val(s@) <= u128::MAX,
        (match r {
            Ok(v) => v == digits_val(s@),
            Err(e) => (e == NumErr::Malformed <==> !is_uint_str(s@)) && (e == NumErr::TooLarge
                <==> is_uint_str(s@) && digits_val(s@) > u128::MAX),
        }),
{
    if !s.is_ascii() {
        proof {
            lemma_non_ascii_not_digits(s@);
        }
        return Err(NumErr::Malformed);
    }
    let n = s.unicode_len();
    if n == 0 {
        return Err(NumErr::Malformed);
    }
    proof {
        assert(s@.subrange(0, n as int) =~= s@);
    }
    if !scan_digits(s, 0, n) {
        return Err(NumErr::Malformed);
    }
    match digits_to_u128(s, 0, n) {
        Some(v) => Ok(v),
        None => Err(NumErr::TooLarge),
    }
}

/// Parses a non-empty digit run into a 32-bit integer; `None` when the text
/// is malformed or the value does not fit.
pub fn parse_u32(s: &str) -> (r: Option<u32>)
    ensures
        r is Some <==> is_uint_str(s@) && digits_val(s@) <= u32::MAX,
        (match r {
            Some(v) => v == digits_val(s@),
            None => true,
        }),
{
    match parse_u128(s) {
        Ok(v) => {
            if v <= 0xffffffff {
                Some(v as u32)
            } else {
                None
            }
        },
        Err(_) => None,
    }
}

/// Parses an optionally negated digit run into a 32-bit signed integer;
/// `None` when the text is malformed or the value does not fit.
pub fn parse_i32(s: &str) -> (r: Option<i32>)
    ensures
        r is Some <==> is_int_str(s@) && i32::MIN <= int_str_val(s@) <= i32::MAX,
        (match r {
            Some(v) => v == int_str_val(s@),
            None => true,
        }),
{
    if !s.is_ascii() {
        proof {
            lemma_non_ascii_not_digits(s@);
            if s@.len() > 0 && s@[0] == '-' {
                assert(!vstd::utf8::is_ascii_chars(s@.skip(1))) by {
                    if vstd::utf8::is_ascii_chars(s@.skip(1)) {
                        assert forall|i: int|
                            0 <= i < s@.len() implies '\0' <= #[trigger] s@[i] <= '\u{7f}' by {
                            if i >= 1 {
                                assert(s@.skip(1)[i - 1] == s@[i]);
                            }
                        }
                    }
                }
                lemma_non_ascii_not_digits(s@.skip(1));
            }
        }
        return None;
    }
    let n = s.unicode_len();
    if n == 0 {
        return None;
    }
    let b0 = s.get_ascii(0);
    if b0 == 45 {
        // a leading minus sign
        proof {
            assert(s@[0] == '-');
            assert(s@.skip(1) =~= s@.subrange(1, n as int));
        }
        if n == 1 {
            return None;
        }
        if !scan_digits(s, 1, n) {
            return None;
        }
        match digits_to_u128(s, 1, n) {
            Some(v) => {
                if v <= 2147483648 {
                    let r: i32 = if v == 2147483648 {
                        i32::MIN
                    } else {
                        -((v as u32) as i32)
                    };
                    Some(r)
                } else {
                    None
                }
            },
            None => None,
        }
    } else {
        proof {
            assert(s@[0] != '-');
            assert(s@.subrange(0, n as int) =~= s@);
        }
        if !scan_digits(s, 0, n) {
            return None;
        }
        match digits_to_u128(s, 0, n) {
            Some(v) => {
                if v <= 2147483647 {
                    Some(v as i32)
                } else {
                    None
                }
            },
            None => None,
        }
    }
}

/// Parses a decimal string — digits with an optional fractional part — into
/// a 10^18-scaled fixed-point mantissa.
pub fn parse_fixed(s: &str) -> (r: Result<u128, NumErr>)
    ensures
        r is Ok <==> is_decimal_str(s@) && decimal_mantissa(s@) <= u128::MAX,
        (match r {
            Ok(v) => v == decimal_mantissa(s@),
            Err(e) => (e == NumErr::Malformed <==> !is_decimal_str(s@)) && (e == NumErr::TooLarge
                <==> is_decimal_str(s@) && decimal_mantissa(s@) > u128::MAX),
        }),
{
    proof {
        lemma_first_dot(s@);
        pow10_vals();
    }
    if !s.is_ascii() {
        proof {
            if is_decimal_str(s@) {
                lemma_ascii_of_decimal(s@);
            }
        }
        return Err(NumErr::Malformed);
    }
    let n = s.unicode_len();
    let ghost d_spec = first_dot(s@);

    // Locate the first dot.
    let mut dot = n;
    let mut i: usize = 0;
    while i < n && dot == n
        invariant
            s.is_ascii(),
            i <= n == s@.len(),
            dot <= n,
            dot == n ==> forall|j: int| 0 <= j < i ==> #[trigger] s@[j] != '.',
            dot < n ==> s@[dot as int] == '.' && (forall|j: int|
                0 <= j < dot ==> #[trigger] s@[j] != '.'),
        decreases
                n - i,
                (if dot == n {
                    1int
                } else {
                    0int
                }),
    {
        if s.get_ascii(i) == 46 {
            proof {
                assert(s@[i as int] == '.');
            }
            dot = i;
        } else {
            proof {
                assert(s@[i as int] != '.');
            }
            i = i + 1;
        }
    }
    proof {
        assert(dot == d_spec);
    }

    if dot == n {
        // No fractional part: the mantissa is the digit run, scaled.
        if n == 0 {
            return Err(NumErr::Malformed);
        }
        proof {
            assert(s@.subrange(0, n as int) =~= s@);
        }
        if !scan_digits(s, 0, n) {
            return Err(NumErr::Malformed);
        }
        match digits_to_u128(s, 0, n) {
            Some(v) => {
                proof {
                    mul_ge_one(digits_val(s@), FIXED_SCALE as nat);
                }
                match v.checked_mul(FIXED_SCALE) {
                    Some(m) => Ok(m),
                    None => Err(NumErr::TooLarge),
                }
            },
            None => {
                proof {
                    mul_ge_one(digits_val(s@), FIXED_SCALE as nat);
                }
                Err(NumErr::TooLarge)
            },
        }
    } else {
        let ghost int_part = s@.take(dot as int);
        let ghost frac_part = s@.skip(dot as int + 1);
        proof {
            assert(int_part =~= s@.subrange(0, dot as int));
            assert(frac_part =~= s@.subrange(dot as int + 1, n as int));
        }
        if dot == 0 || dot + 1 == n {
            return Err(NumErr::Malformed);
        }
        if !scan_digits(s, 0, dot) {
            return Err(NumErr::Malformed);
        }
        if !scan_digits(s, dot + 1, n) {
            return Err(NumErr::Malformed);
        }
        // Read at most eighteen fractional digits; further places are
        // below the fixed-point resolution.
        let frac_len = n - (dot + 1);
        let frac_to = if frac_len > 18 {
            dot + 1 + 18
        } else {
            n
        };
        let ghost frac_used = s@.subrange(dot as int + 1, frac_to as int);
        proof {
            if frac_len >= 18 {
                assert(frac_used =~= frac_part.take(18));
            } else {
                assert(frac_used =~= frac_part);
            }
            lemma_digits_val_bound(frac_used);
            vstd::arithmetic::power::lemma_pow_increases(10, frac_used.len(), 18);
        }
        let fv = match digits_to_u128(s, dot + 1, frac_to) {
            Some(x) => x,
            None => {
                proof {
                    assert(false);
                }
                return Err(NumErr::TooLarge);
            },
        };
        let scaled_frac: u128 = if frac_len >= 18 {
            fv
        } else {
            let m = pow10_u128((18 - frac_len) as u32);
            proof {
                vstd::arithmetic::power::lemma_pow_adds(
                    10,
                    frac_used.len(),
                    (18 - frac_used.len()) as nat,
                );
                pow10_vals();
                assert(fv * m < 1000000000000000000) by (nonlinear_arith)
                    requires
                        fv < pow(10, frac_used.len()),
                        m == pow(10, (18 - frac_used.len()) as nat),
                        pow(10, frac_used.len()) * pow(10, (18 - frac_used.len()) as nat)
                            == 1000000000000000000,
                ;
            }
            fv * m
        };
        proof {
            assert(scaled_frac == frac_mantissa(frac_part));
        }
        match digits_to_u128(s, 0, dot) {
            Some(v) => {
                proof {
                    mul_ge_one(digits_val(int_part), FIXED_SCALE as nat);
                }
                match v.checked_mul(FIXED_SCALE) {
                    Some(m) => {
                        match m.checked_add(scaled_frac) {
                            Some(total) => Ok(total),
                            None => Err(NumErr::TooLarge),
                        }
                    },
                    None => Err(NumErr::TooLarge),
                }
            },
            None => {
                proof {
                    mul_ge_one(digits_val(int_part), FIXED_SCALE as nat);
                }
                Err(NumErr::TooLarge)
            },
        }
    }
}

/// `a * b >= a` for a positive factor `b`.
proof fn mul_ge_one(a: nat, b: nat)
    requires
        b >= 1,
    ensures
        a * b >= a,
{
    assert(a * b >= a * 1 == a) by (nonlinear_arith)
        requires
            b >= 1,
    ;
}

/// A decimal string consists of ASCII characters only.
proof fn lemma_ascii_of_decimal(s: Seq<char>)
    requires
        is_decimal_str(s),
    ensures
        vstd::utf8::is_ascii_chars(s),
{
    lemma_first_dot(s);
    let d = first_dot(s);
    assert forall|i: int| 0 <= i < s.len() implies '\0' <= #[trigger] s[i] <= '\u{7f}' by {
        if d == s.len() {
            assert(is_digit(s[i]));
        } else if i < d {
            assert(s.take(d)[i] == s[i]);
            assert(is_digit(s.take(d)[i]));
        } else if i == d {
            assert(s[i] == '.');
        } else {
            assert(s.skip(d + 1)[i - d - 1] == s[i]);
            assert(is_digit(s.skip(d + 1)[i - d - 1]));
        }
    }
}

} // verus!

//! Sample values: what the evaluation needs of them, and integers among doubles.
use vstd::arithmetic::power2::{
    lemma2_to64, lemma2_to64_rest, lemma_pow2_strictly_increases, lemma_pow2_unfold, pow2,
};
use vstd::prelude::*;

verus! {

/// An arithmetic operator on values.
#[derive(Debug, Clone, Copy, PartialEq, Eq, Structural)]
pub enum Arithmetic {
    Add,
    Sub,
    Mul,
    Div,
    Mod,
    Pow,
    Atan2,
}

/// A comparison of values.
#[derive(Debug, Clone, Copy, PartialEq, Eq, Structural)]
pub enum Comparison {
    Equal,
    NotEqual,
    Greater,
    Less,
    GreaterOrEqual,
    LessOrEqual,
}

/// The value of a sample. Evaluation only combines values through these
/// operations, and nothing is taken for granted about what they return.
pub trait Number: Copy {
    /// The result of an arithmetic operator.
    fn calculate(op: Arithmetic, l: Self, r: Self) -> Self;

    /// Whether a comparison holds.
    fn holds(op: Comparison, l: Self, r: Self) -> bool;

    /// The lesser of two values.
    fn least(l: Self, r: Self) -> Self;

    /// The greater of two values.
    fn greatest(l: Self, r: Self) -> Self;

    /// The value with its sign changed.
    fn negated(v: Self) -> Self;

    /// The double with the given bits.
    fn of_bits(bits: u64) -> Self;

    /// The value of a whole number.
    fn of_count(n: u64) -> Self;

    /// Nanoseconds as a value in seconds.
    fn of_nanos(ns: i64) -> Self;

    /// The value of what has no value (NaN).
    fn undefined() -> Self;

    /// The lowest value there is.
    fn lowest() -> Self;

    /// A number by which values are ordered.
    fn rank(v: Self) -> i64;

    /// The value as text.
    fn text(v: Self) -> String;
}

/// `2^52`, one more than the greatest fraction of a double.
pub const FRACTION: u64 = 0x10_0000_0000_0000;

/// `2^63`, the sign bit of a double.
pub const SIGN: u64 = 0x8000_0000_0000_0000;

/// The bound that a count stays below.
pub const COUNT_BOUND: u64 = 9_007_000_000_000_000;

/// The magnitude of the double with the given bits, where it is a whole number: a
/// double is its significand times two to the power of its exponent.
pub open spec fn whole_magnitude(bits: u64) -> Option<nat> {
    let exponent = (bits % SIGN) / FRACTION;
    let fraction = (bits % FRACTION) as nat;
    let significand = FRACTION as nat + fraction;
    if exponent == 0 {
        if fraction == 0 {
            Some(0)
        } else {
            None
        }
    } else if exponent == 2047 {
        None
    } else if exponent >= 1075 {
        Some(significand * pow2((exponent - 1075) as nat))
    } else if significand % pow2((1075 - exponent) as nat) == 0 {
        Some(significand / pow2((1075 - exponent) as nat))
    } else {
        None
    }
}

/// The whole number that the double with the given bits is, if it is one whose
/// magnitude stays below the bound on counts.
pub open spec fn whole_count(bits: u64) -> Option<int> {
    match whole_magnitude(bits) {
        Some(m) => if m < COUNT_BOUND {
            Some(if bits >= SIGN {
                -(m as int)
            } else {
                m as int
            })
        } else {
            None
        },
        None => None,
    }
}

/// Two to the power of `k`.
fn power_of_two(k: u64) -> (r: u64)
    requires
        k <= 52,
    ensures
        r == pow2(k as nat),
        r > 0,
{
    proof {
        lemma2_to64();
        lemma2_to64_rest();
    }
    let mut r: u64 = 1;
    let mut i: u64 = 0;
    while i < k
        invariant
            i <= k <= 52,
            r == pow2(i as nat),
            pow2(53) == 0x20_0000_0000_0000,
            r > 0,
        decreases k - i,
    {
        proof {
            lemma_pow2_unfold((i + 1) as nat);
            if i + 1 < 53 {
                lemma_pow2_strictly_increases((i + 1) as nat, 53);
            }
        }
        r = r * 2;
        i = i + 1;
    }
    r
}

/// The whole number that the double with the given bits is, if it is one whose
/// magnitude stays below the bound on counts: neither a fraction nor an
/// out-of-range value is rounded.
pub fn count_of_bits(bits: u64) -> (r: Option<i64>)
    ensures
        r is Some <==> whole_count(bits) is Some,
        r matches Some(n) ==> whole_count(bits) == Some(n as int),
{
    let exponent: u64 = (bits % SIGN) / FRACTION;
    let fraction: u64 = bits % FRACTION;
    if exponent == 0 {
        return if fraction == 0 {
            Some(0)
        } else {
            None
        };
    }
    if exponent == 2047 {
        return None;
    }
    let significand: u64 = FRACTION + fraction;
    proof {
        lemma2_to64();
        lemma2_to64_rest();
    }
    if exponent > 1075 {
        proof {
            let k = (exponent - 1075) as nat;
            if k > 1 {
                lemma_pow2_strictly_increases(1, k);
            }
            assert(significand as nat * pow2(k) >= FRACTION * 2) by (nonlinear_arith)
                requires
                    significand >= FRACTION,
                    pow2(k) >= 2,
            ;
        }
        return None;
    }
    if exponent < 1023 {
        proof {
            let k = (1075 - exponent) as nat;
            if k > 53 {
                lemma_pow2_strictly_increases(53, k);
            }
            vstd::arithmetic::div_mod::lemma_small_mod(significand as nat, pow2(k));
        }
        return None;
    }
    let divisor: u64 = power_of_two(1075 - exponent);
    proof {
        if exponent == 1075 {
            assert(divisor == 1);
        }
    }
    if significand % divisor != 0 {
        return None;
    }
    let magnitude: u64 = significand / divisor;
    if magnitude >= COUNT_BOUND {
        return None;
    }
    if bits >= SIGN {
        Some(-(magnitude as i64))
    } else {
        Some(magnitude as i64)
    }
}

} // verus!

//! Operators on sample values: binary operators, clamping, folding, quantiles.
use crate::classify::AggKind;
use crate::number::{Arithmetic, Comparison, Number};
use crate::text::str_eq;
use vstd::prelude::*;

verus! {

/// A binary operator.
#[derive(Debug, Clone, Copy, PartialEq, Eq, Structural)]
pub enum BinaryOp {
    Arithmetic(Arithmetic),
    Comparison(Comparison),
    /// An operator that does not combine two values, such as a set operator.
    Other,
}

/// The binary operator with the given symbol.
pub open spec fn op_of(symbol: Seq<char>) -> BinaryOp {
    if symbol == "+"@ {
        BinaryOp::Arithmetic(Arithmetic::Add)
    } else if symbol == "-"@ {
        BinaryOp::Arithmetic(Arithmetic::Sub)
    } else if symbol == "*"@ {
        BinaryOp::Arithmetic(Arithmetic::Mul)
    } else if symbol == "/"@ {
        BinaryOp::Arithmetic(Arithmetic::Div)
    } else if symbol == "%"@ {
        BinaryOp::Arithmetic(Arithmetic::Mod)
    } else if symbol == "^"@ {
        BinaryOp::Arithmetic(Arithmetic::Pow)
    } else if symbol == "atan2"@ {
        BinaryOp::Arithmetic(Arithmetic::Atan2)
    } else if symbol == "=="@ {
        BinaryOp::Comparison(Comparison::Equal)
    } else if symbol == "!="@ {
        BinaryOp::Comparison(Comparison::NotEqual)
    } else if symbol == ">"@ {
        BinaryOp::Comparison(Comparison::Greater)
    } else if symbol == "<"@ {
        BinaryOp::Comparison(Comparison::Less)
    } else if symbol == ">="@ {
        BinaryOp::Comparison(Comparison::GreaterOrEqual)
    } else if symbol == "<="@ {
        BinaryOp::Comparison(Comparison::LessOrEqual)
    } else {
        BinaryOp::Other
    }
}

/// The binary operator with the given symbol.
pub fn binary_op(symbol: &str) -> (r: BinaryOp)
    ensures
        r == op_of(symbol@),
{
    if str_eq(symbol, "+") {
        BinaryOp::Arithmetic(Arithmetic::Add)
    } else if str_eq(symbol, "-") {
        BinaryOp::Arithmetic(Arithmetic::Sub)
    } else if str_eq(symbol, "*") {
        BinaryOp::Arithmetic(Arithmetic::Mul)
    } else if str_eq(symbol, "/") {
        BinaryOp::Arithmetic(Arithmetic::Div)
    } else if str_eq(symbol, "%") {
        BinaryOp::Arithmetic(Arithmetic::Mod)
    } else if str_eq(symbol, "^") {
        BinaryOp::Arithmetic(Arithmetic::Pow)
    } else if str_eq(symbol, "atan2") {
        BinaryOp::Arithmetic(Arithmetic::Atan2)
    } else if str_eq(symbol, "==") {
        BinaryOp::Comparison(Comparison::Equal)
    } else if str_eq(symbol, "!=") {
        BinaryOp::Comparison(Comparison::NotEqual)
    } else if str_eq(symbol, ">") {
        BinaryOp::Comparison(Comparison::Greater)
    } else if str_eq(symbol, "<") {
        BinaryOp::Comparison(Comparison::Less)
    } else if str_eq(symbol, ">=") {
        BinaryOp::Comparison(Comparison::GreaterOrEqual)
    } else if str_eq(symbol, "<=") {
        BinaryOp::Comparison(Comparison::LessOrEqual)
    } else {
        BinaryOp::Other
    }
}

/// Whether `x` is what the arithmetic operator gives.
pub open spec fn calculated<V: Number>(op: Arithmetic, l: V, r: V, x: V) -> bool {
    call_ensures(V::calculate, (op, l, r), x)
}

/// Whether `t` is what the comparison gives.
pub open spec fn compared<V: Number>(op: Comparison, l: V, r: V, t: bool) -> bool {
    call_ensures(V::holds, (op, l, r), t)
}

/// Whether `x` is the value of a whole number.
pub open spec fn counted<V: Number>(n: u64, x: V) -> bool {
    call_ensures(V::of_count, (n,), x)
}

/// What a binary operator gives: the value of an arithmetic operator; for a
/// comparison with `bool` one or zero, and without it `keep` where it holds and
/// nothing where it does not.
pub open spec fn applied<V: Number>(
    op: BinaryOp,
    l: V,
    r: V,
    return_bool: bool,
    keep: V,
    res: Option<V>,
) -> bool {
    match op {
        BinaryOp::Arithmetic(a) => res matches Some(x) && calculated(a, l, r, x),
        BinaryOp::Comparison(c) => exists|t: bool| #[trigger]
            compared(c, l, r, t) && if return_bool {
                res matches Some(x) && counted(if t { 1u64 } else { 0u64 }, x)
            } else {
                res == if t {
                    Some(keep)
                } else {
                    None
                }
            },
        BinaryOp::Other => res is None,
    }
}

/// Apply a binary operator. A filtering comparison (no `bool`) gives `keep_val`
/// when it holds, else nothing. With `bool`, a comparison gives one or zero.
pub fn apply_binop<V: Number>(op: BinaryOp, l: V, r: V, return_bool: bool, keep_val: V) -> (res:
    Option<V>)
    ensures
        applied(op, l, r, return_bool, keep_val, res),
{
    match op {
        BinaryOp::Arithmetic(a) => Some(V::calculate(a, l, r)),
        BinaryOp::Comparison(c) => {
            let t = V::holds(c, l, r);
            assert(compared(c, l, r, t));
            if return_bool {
                Some(V::of_count(if t { 1 } else { 0 }))
            } else if t {
                Some(keep_val)
            } else {
                None
            }
        },
        BinaryOp::Other => None,
    }
}

/// What a binary operator between two scalars gives: a comparison always one or
/// zero, and an operator that combines no values the undefined value.
pub open spec fn scalars_combined<V: Number>(op: BinaryOp, a: V, b: V, x: V) -> bool {
    if op == BinaryOp::Other {
        call_ensures(V::undefined, (), x)
    } else {
        applied(op, a, b, true, a, Some(x))
    }
}

/// A binary operator between two scalars.
pub fn scalar_op_scalar<V: Number>(op: BinaryOp, a: V, b: V) -> (x: V)
    ensures
        scalars_combined(op, a, b, x),
{
    match apply_binop(op, a, b, true, a) {
        Some(x) => x,
        None => V::undefined(),
    }
}

/// Whether `x` is the value floored (or, where `is_min` is false, capped) at the
/// bound.
pub open spec fn clamped<V: Number>(is_min: bool, v: V, bound: V, x: V) -> bool {
    if is_min {
        call_ensures(V::greatest, (v, bound), x)
    } else {
        call_ensures(V::least, (v, bound), x)
    }
}

/// Apply `clamp_min`/`clamp_max` (value floored/capped at `bound`) to a value.
pub fn clamp_value<V: Number>(is_min: bool, x: V, bound: V) -> (r: V)
    ensures
        clamped(is_min, x, bound, r),
{
    if is_min {
        V::greatest(x, bound)
    } else {
        V::least(x, bound)
    }
}

/// Whether `x` is the accumulator of an aggregation after `v` joined `n` values:
/// the first value starts a minimum or a maximum, a count grows by one, and a sum
/// or an average by the value.
pub open spec fn reduced<V: Number>(op: AggKind, acc: V, n: u64, v: V, x: V) -> bool {
    match op {
        AggKind::Min => if n == 0 {
            x == v
        } else {
            call_ensures(V::least, (acc, v), x)
        },
        AggKind::Max => if n == 0 {
            x == v
        } else {
            call_ensures(V::greatest, (acc, v), x)
        },
        AggKind::Count => exists|one: V| #[trigger]
            counted(1, one) && calculated(Arithmetic::Add, acc, one, x),
        AggKind::Sum | AggKind::Avg => calculated(Arithmetic::Add, acc, v, x),
    }
}

/// Fold one contributing value into an aggregation's accumulator; `n` is the
/// number of values already folded in.
pub fn reduce_step<V: Number>(op: AggKind, acc: V, n: u64, v: V) -> (x: V)
    ensures
        reduced(op, acc, n, v, x),
{
    match op {
        AggKind::Min => if n == 0 {
            v
        } else {
            V::least(acc, v)
        },
        AggKind::Max => if n == 0 {
            v
        } else {
            V::greatest(acc, v)
        },
        AggKind::Count => {
            let one = V::of_count(1);
            assert(counted(1, one));
            V::calculate(Arithmetic::Add, acc, one)
        },
        AggKind::Sum => V::calculate(Arithmetic::Add, acc, v),
        AggKind::Avg => V::calculate(Arithmetic::Add, acc, v),
    }
}

/// Whether `x` is what an aggregation of `n` values gives for its accumulator: an
/// average divides by their number.
pub open spec fn reduction<V: Number>(op: AggKind, acc: V, n: u64, x: V) -> bool {
    if op == AggKind::Avg {
        exists|k: V| #[trigger] counted(n, k) && calculated(Arithmetic::Div, acc, k, x)
    } else {
        x == acc
    }
}

/// What an aggregation of `n` values gives for its accumulator.
pub fn reduce_end<V: Number>(op: AggKind, acc: V, n: u64) -> (x: V)
    ensures
        reduction(op, acc, n, x),
{
    if op == AggKind::Avg {
        let k = V::of_count(n);
        assert(counted(n, k));
        V::calculate(Arithmetic::Div, acc, k)
    } else {
        acc
    }
}

/// Whether `x` is the sum of the first `n` values, added up from `zero`.
pub open spec fn summed<V: Number>(zero: V, values: Seq<V>, n: nat, x: V) -> bool
    decreases n,
{
    if n == 0 {
        x == zero
    } else {
        exists|p: V|
            summed(zero, values, (n - 1) as nat, p) && #[trigger] calculated(
                Arithmetic::Add,
                p,
                values[n - 1],
                x,
            )
    }
}

/// Add up values, starting from `zero`.
fn sum_up<V: Number>(zero: V, values: &Vec<V>) -> (x: V)
    ensures
        summed(zero, values@, values@.len(), x),
{
    let mut x = zero;
    let mut i: usize = 0;
    while i < values.len()
        invariant
            i <= values@.len(),
            summed(zero, values@, i as nat, x),
        decreases values.len() - i,
    {
        let ghost before = x;
        x = V::calculate(Arithmetic::Add, x, values[i]);
        i = i + 1;
        assert(calculated(Arithmetic::Add, before, values@[i - 1], x));
    }
    x
}

/// Whether `x` is the quantile moved into the range from zero to one.
pub open spec fn into_unit<V: Number>(phi: V, zero: V, one: V, x: V) -> bool {
    exists|below: bool| #[trigger]
        compared(Comparison::Less, phi, zero, below) && if below {
            x == zero
        } else {
            exists|above: bool| #[trigger]
                compared(Comparison::Greater, phi, one, above) && x == if above {
                    one
                } else {
                    phi
                }
        }
}

fn clamp_unit<V: Number>(phi: V, zero: V, one: V) -> (x: V)
    ensures
        into_unit(phi, zero, one, x),
{
    let below = V::holds(Comparison::Less, phi, zero);
    assert(compared(Comparison::Less, phi, zero, below));
    if below {
        zero
    } else {
        let above = V::holds(Comparison::Greater, phi, one);
        assert(compared(Comparison::Greater, phi, one, above));
        if above {
            one
        } else {
            phi
        }
    }
}

/// Whether `x` is `lower + (upper - lower) * part / whole`.
pub open spec fn interpolated<V: Number>(lower: V, upper: V, part: V, whole: V, x: V) -> bool {
    exists|width: V, product: V, share: V|
        {
            &&& #[trigger] calculated(Arithmetic::Sub, upper, lower, width)
            &&& #[trigger] calculated(Arithmetic::Mul, width, part, product)
            &&& #[trigger] calculated(Arithmetic::Div, product, whole, share)
            &&& calculated(Arithmetic::Add, lower, share, x)
        }
}

fn interpolate<V: Number>(lower: V, upper: V, part: V, whole: V) -> (x: V)
    ensures
        interpolated(lower, upper, part, whole, x),
{
    let width = V::calculate(Arithmetic::Sub, upper, lower);
    assert(calculated(Arithmetic::Sub, upper, lower, width));
    let product = V::calculate(Arithmetic::Mul, width, part);
    assert(calculated(Arithmetic::Mul, width, part, product));
    let share = V::calculate(Arithmetic::Div, product, whole);
    assert(calculated(Arithmetic::Div, product, whole, share));
    V::calculate(Arithmetic::Add, lower, share)
}

/// The last bound, if there is one.
pub open spec fn last_bound<V>(bounds: Seq<V>) -> Option<V> {
    if bounds.len() > 0 {
        Some(bounds.last())
    } else {
        None
    }
}

/// The quantile where the rank falls into bucket `i`, before which `before` was
/// counted. The overflow bucket gives the last bound, an empty bucket its upper
/// bound, and any other an interpolation between its bounds, the first from zero.
pub open spec fn quantile_in_bucket<V: Number>(
    zero: V,
    rank: V,
    counts: Seq<V>,
    bounds: Seq<V>,
    i: int,
    before: V,
    res: Option<V>,
) -> bool {
    if i >= bounds.len() {
        res == if bounds.len() == 0 && i == 0 {
            Some(zero)
        } else {
            last_bound(bounds)
        }
    } else {
        exists|empty: bool| #[trigger]
            compared(Comparison::LessOrEqual, counts[i], zero, empty) && if empty {
                res == Some(bounds[i])
            } else {
                exists|part: V| #[trigger]
                    calculated(Arithmetic::Sub, rank, before, part) && res is Some && interpolated(
                        if i == 0 {
                            zero
                        } else {
                            bounds[i - 1]
                        },
                        bounds[i],
                        part,
                        counts[i],
                        res->0,
                    )
            }
    }
}

fn bucket_quantile<V: Number>(
    zero: V,
    rank: V,
    counts: &Vec<V>,
    bounds: &Vec<V>,
    i: usize,
    before: V,
) -> (res: Option<V>)
    requires
        i < counts@.len(),
    ensures
        quantile_in_bucket(zero, rank, counts@, bounds@, i as int, before, res),
{
    if i >= bounds.len() {
        if bounds.len() > 0 {
            Some(bounds[bounds.len() - 1])
        } else if i == 0 {
            Some(zero)
        } else {
            None
        }
    } else {
        let empty = V::holds(Comparison::LessOrEqual, counts[i], zero);
        assert(compared(Comparison::LessOrEqual, counts@[i as int], zero, empty));
        if empty {
            Some(bounds[i])
        } else {
            let lower = if i == 0 {
                zero
            } else {
                bounds[i - 1]
            };
            let part = V::calculate(Arithmetic::Sub, rank, before);
            assert(calculated(Arithmetic::Sub, rank, before, part));
            Some(interpolate(lower, bounds[i], part, counts[i]))
        }
    }
}

/// The quantile of the buckets from the `i`-th on, before which `before` was
/// counted: it lies in the first bucket up to which at least `rank` is counted.
pub open spec fn quantile_from<V: Number>(
    zero: V,
    rank: V,
    counts: Seq<V>,
    bounds: Seq<V>,
    i: int,
    before: V,
    res: Option<V>,
) -> bool
    decreases counts.len() - i,
{
    if i < 0 || i >= counts.len() {
        res == last_bound(bounds)
    } else {
        exists|cum: V, reached: bool|
            {
                &&& #[trigger] calculated(Arithmetic::Add, before, counts[i], cum)
                &&& #[trigger] compared(Comparison::GreaterOrEqual, cum, rank, reached)
                &&& if reached {
                    quantile_in_bucket(zero, rank, counts, bounds, i, before, res)
                } else {
                    quantile_from(zero, rank, counts, bounds, i + 1, cum, res)
                }
            }
    }
}

/// What the quantile `phi` of a histogram is: nothing without observations, else
/// what lies at the rank `phi * total`.
pub open spec fn is_quantile<V: Number>(
    phi: V,
    counts: Seq<V>,
    bounds: Seq<V>,
    res: Option<V>,
) -> bool {
    exists|zero: V, total: V, none: bool|
        {
            &&& #[trigger] counted(0, zero)
            &&& #[trigger] summed(zero, counts, counts.len(), total)
            &&& #[trigger] compared(Comparison::LessOrEqual, total, zero, none)
            &&& if none || counts.len() == 0 {
                res is None
            } else {
                exists|one: V, unit: V, rank: V|
                    {
                        &&& #[trigger] counted(1, one)
                        &&& #[trigger] into_unit(phi, zero, one, unit)
                        &&& #[trigger] calculated(Arithmetic::Mul, unit, total, rank)
                        &&& quantile_from(zero, rank, counts, bounds, 0, zero, res)
                    }
            }
        }
}

fn quantile_at_rank<V: Number>(zero: V, rank: V, counts: &Vec<V>, bounds: &Vec<V>) -> (res: Option<
    V,
>)
    ensures
        quantile_from(zero, rank, counts@, bounds@, 0, zero, res),
{
    let mut before = zero;
    let mut i: usize = 0;
    while i < counts.len()
        invariant
            i <= counts@.len(),
            forall|res: Option<V>| #[trigger]
                quantile_from(zero, rank, counts@, bounds@, i as int, before, res)
                    ==> quantile_from(zero, rank, counts@, bounds@, 0, zero, res),
        decreases counts.len() - i,
    {
        let cum = V::calculate(Arithmetic::Add, before, counts[i]);
        assert(calculated(Arithmetic::Add, before, counts@[i as int], cum));
        let reached = V::holds(Comparison::GreaterOrEqual, cum, rank);
        assert(compared(Comparison::GreaterOrEqual, cum, rank, reached));
        if reached {
            let res = bucket_quantile(zero, rank, counts, bounds, i, before);
            assert(quantile_from(zero, rank, counts@, bounds@, i as int, before, res));
            return res;
        }
        proof {
            assert forall|res: Option<V>| #[trigger]
                quantile_from(zero, rank, counts@, bounds@, i + 1, cum, res) implies quantile_from(
                zero,
                rank,
                counts@,
                bounds@,
                0,
                zero,
                res,
            ) by {
                assert(quantile_from(zero, rank, counts@, bounds@, i as int, before, res));
            }
        }
        before = cum;
        i = i + 1;
    }
    let res = if bounds.len() > 0 {
        Some(bounds[bounds.len() - 1])
    } else {
        None
    };
    assert(quantile_from(zero, rank, counts@, bounds@, i as int, before, res));
    res
}

/// Linear-interpolated quantile over an OTLP explicit-bounds histogram.
///
/// `bounds` are the `explicit_bounds` (length n); `counts` are the per-bucket
/// `bucket_counts` (length n+1, last is the `+Inf` overflow bucket). Returns
/// `None` for an empty histogram.
pub fn histogram_quantile<V: Number>(phi: V, counts: &Vec<V>, bounds: &Vec<V>) -> (res: Option<V>)
    ensures
        is_quantile(phi, counts@, bounds@, res),
{
    let zero = V::of_count(0);
    assert(counted(0, zero));
    let total = sum_up(zero, counts);
    let none = V::holds(Comparison::LessOrEqual, total, zero);
    assert(compared(Comparison::LessOrEqual, total, zero, none));
    if none || counts.len() == 0 {
        return None;
    }
    let one = V::of_count(1);
    assert(counted(1, one));
    let unit = clamp_unit(phi, zero, one);
    let rank = V::calculate(Arithmetic::Mul, unit, total);
    assert(calculated(Arithmetic::Mul, unit, total, rank));
    quantile_at_rank(zero, rank, counts, bounds)
}

} // verus!

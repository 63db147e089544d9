//! Laws of histogram quantiles.
use crate::determined::single_valued;
use crate::number::{Arithmetic, Comparison, Number};
use crate::operators::{
    calculated, compared, counted, interpolated, into_unit, is_quantile, quantile_from,
    quantile_in_bucket, summed,
};
use vstd::prelude::*;

verus! {

/// Whether the operations on values are exact, where `val` gives the number that a value
/// stands for.
pub open spec fn exact<V: Number>(val: spec_fn(V) -> real) -> bool {
    &&& forall|n: u64, x: V| #[trigger] counted(n, x) ==> val(x) == (n as int) as real
    &&& forall|a: V, b: V, x: V| #[trigger]
        calculated(Arithmetic::Add, a, b, x) ==> val(x) == val(a) + val(b)
    &&& forall|a: V, b: V, x: V| #[trigger]
        calculated(Arithmetic::Sub, a, b, x) ==> val(x) == val(a) - val(b)
    &&& forall|a: V, b: V, x: V| #[trigger]
        calculated(Arithmetic::Mul, a, b, x) ==> val(x) == val(a) * val(b)
    &&& forall|a: V, b: V, x: V| #[trigger]
        calculated(Arithmetic::Div, a, b, x) && val(b) != 0real ==> val(x) == val(a) / val(b)
    &&& forall|a: V, b: V, t: bool| #[trigger]
        compared(Comparison::Less, a, b, t) ==> t == (val(a) < val(b))
    &&& forall|a: V, b: V, t: bool| #[trigger]
        compared(Comparison::Greater, a, b, t) ==> t == (val(a) > val(b))
    &&& forall|a: V, b: V, t: bool| #[trigger]
        compared(Comparison::LessOrEqual, a, b, t) ==> t == (val(a) <= val(b))
    &&& forall|a: V, b: V, t: bool| #[trigger]
        compared(Comparison::GreaterOrEqual, a, b, t) ==> t == (val(a) >= val(b))
}

/// The sum of the first `n` counts.
pub open spec fn sum_of<V>(val: spec_fn(V) -> real, counts: Seq<V>, n: int) -> real
    decreases n,
{
    if n <= 0 {
        0real
    } else {
        sum_of(val, counts, n - 1) + val(counts[n - 1])
    }
}

/// Whether counts and bounds are those of a histogram with observations: the bounds
/// ascend from zero or above, there is one bucket more than bounds, no count is
/// negative, and not all are zero.
pub open spec fn is_histogram<V>(val: spec_fn(V) -> real, counts: Seq<V>, bounds: Seq<V>) -> bool {
    &&& bounds.len() > 0
    &&& counts.len() == bounds.len() + 1
    &&& val(bounds[0]) >= 0real
    &&& forall|i: int, j: int|
        0 <= i <= j < bounds.len() ==> val(#[trigger] bounds[i]) <= val(#[trigger] bounds[j])
    &&& forall|i: int| 0 <= i < counts.len() ==> val(#[trigger] counts[i]) >= 0real
    &&& sum_of(val, counts, counts.len() as int) > 0real
}

/// A number moved into the range from zero to one.
pub open spec fn unit_of(x: real) -> real {
    if x < 0real {
        0real
    } else if x > 1real {
        1real
    } else {
        x
    }
}

/// Where the operations are exact, values are added up exactly.
pub proof fn sums_are_exact<V: Number>(val: spec_fn(V) -> real, zero: V, counts: Seq<V>, n: nat, x: V)
    requires
        exact(val),
        val(zero) == 0real,
        summed(zero, counts, n, x),
    ensures
        val(x) == sum_of(val, counts, n as int),
    decreases n,
{
    if n > 0 {
        let p = choose|p: V|
            summed(zero, counts, (n - 1) as nat, p) && #[trigger] calculated(
                Arithmetic::Add,
                p,
                counts[n - 1],
                x,
            );
        sums_are_exact(val, zero, counts, (n - 1) as nat, p);
    }
}

/// The lower bound of a bucket.
spec fn lower<V>(val: spec_fn(V) -> real, bounds: Seq<V>, i: int) -> real {
    if i <= 0 {
        0real
    } else {
        val(bounds[i - 1])
    }
}

/// `low + (high - low) * part / whole`.
spec fn between(low: real, high: real, part: real, whole: real) -> real {
    low + (high - low) * part / whole
}

/// What lies at a rank in a bucket.
spec fn at_rank_in<V>(
    val: spec_fn(V) -> real,
    rank: real,
    counts: Seq<V>,
    bounds: Seq<V>,
    i: int,
    before: real,
) -> real {
    if i >= bounds.len() {
        val(bounds.last())
    } else if val(counts[i]) <= 0real {
        val(bounds[i])
    } else {
        between(lower(val, bounds, i), val(bounds[i]), rank - before, val(counts[i]))
    }
}

/// What lies at a rank in the buckets from the `i`-th on.
spec fn at_rank<V>(
    val: spec_fn(V) -> real,
    rank: real,
    counts: Seq<V>,
    bounds: Seq<V>,
    i: int,
    before: real,
) -> real
    decreases counts.len() - i,
{
    if i < 0 || i >= counts.len() {
        val(bounds.last())
    } else if before + val(counts[i]) >= rank {
        at_rank_in(val, rank, counts, bounds, i, before)
    } else {
        at_rank(val, rank, counts, bounds, i + 1, before + val(counts[i]))
    }
}

proof fn buckets_are_exact<V: Number>(
    val: spec_fn(V) -> real,
    zero: V,
    rank: V,
    counts: Seq<V>,
    bounds: Seq<V>,
    i: int,
    before: V,
    res: Option<V>,
)
    requires
        exact(val),
        val(zero) == 0real,
        bounds.len() > 0,
        0 <= i < counts.len(),
        quantile_in_bucket(zero, rank, counts, bounds, i, before, res),
    ensures
        res is Some,
        val(res->0) == at_rank_in(val, val(rank), counts, bounds, i, val(before)),
{
    if i < bounds.len() {
        let empty = choose|empty: bool| #[trigger]
            compared(Comparison::LessOrEqual, counts[i], zero, empty) && if empty {
                res == Some(bounds[i])
            } else {
                exists|part: V| #[trigger]
                    calculated(Arithmetic::Sub, rank, before, part) && res is Some && interpolated(
                        if i == 0 {
                            zero
                        } else {
                            bounds[i - 1]
                        },
                        bounds[i],
                        part,
                        counts[i],
                        res->0,
                    )
            };
        assert(empty == (val(counts[i]) <= val(zero)));
        if !empty {
            let low = if i == 0 {
                zero
            } else {
                bounds[i - 1]
            };
            let part = choose|part: V| #[trigger]
                calculated(Arithmetic::Sub, rank, before, part) && res is Some && interpolated(
                    low,
                    bounds[i],
                    part,
                    counts[i],
                    res->0,
                );
            let (width, product, share) = choose|width: V, product: V, share: V|
                {
                    &&& #[trigger] calculated(Arithmetic::Sub, bounds[i], low, width)
                    &&& #[trigger] calculated(Arithmetic::Mul, width, part, product)
                    &&& #[trigger] calculated(Arithmetic::Div, product, counts[i], share)
                    &&& calculated(Arithmetic::Add, low, share, res->0)
                };
            assert(val(part) == val(rank) - val(before));
            assert(val(product) == (val(bounds[i]) - val(low)) * val(part));
            assert(val(share) == val(product) / val(counts[i]));
            assert(val(low) == lower(val, bounds, i));
        }
    }
}

proof fn quantiles_are_exact<V: Number>(
    val: spec_fn(V) -> real,
    zero: V,
    rank: V,
    counts: Seq<V>,
    bounds: Seq<V>,
    i: int,
    before: V,
    res: Option<V>,
)
    requires
        exact(val),
        val(zero) == 0real,
        bounds.len() > 0,
        0 <= i,
        quantile_from(zero, rank, counts, bounds, i, before, res),
    ensures
        res is Some,
        val(res->0) == at_rank(val, val(rank), counts, bounds, i, val(before)),
    decreases counts.len() - i,
{
    if i < counts.len() {
        let (cum, reached) = choose|cum: V, reached: bool|
            {
                &&& #[trigger] calculated(Arithmetic::Add, before, counts[i], cum)
                &&& #[trigger] compared(Comparison::GreaterOrEqual, cum, rank, reached)
                &&& if reached {
                    quantile_in_bucket(zero, rank, counts, bounds, i, before, res)
                } else {
                    quantile_from(zero, rank, counts, bounds, i + 1, cum, res)
                }
            };
        assert(val(cum) == val(before) + val(counts[i]));
        assert(reached == (val(cum) >= val(rank)));
        if reached {
            buckets_are_exact(val, zero, rank, counts, bounds, i, before, res);
        } else {
            quantiles_are_exact(val, zero, rank, counts, bounds, i + 1, cum, res);
        }
    }
}

proof fn interpolation_ascends(low: real, high: real, x: real, y: real, whole: real)
    requires
        low <= high,
        0real <= x <= y <= whole,
        whole > 0real,
    ensures
        low <= between(low, high, x, whole) <= between(low, high, y, whole) <= high,
{
    let w = high - low;
    assert(0real <= w * x / whole) by (nonlinear_arith)
        requires
            w >= 0real,
            x >= 0real,
            whole > 0real,
    ;
    assert(w * x / whole <= w * y / whole) by (nonlinear_arith)
        requires
            w >= 0real,
            0real <= x <= y,
            whole > 0real,
    ;
    assert(w * y / whole <= w) by (nonlinear_arith)
        requires
            w >= 0real,
            0real <= y <= whole,
            whole > 0real,
    ;
}

/// Whether a rank has not been reached by what was counted before the `i`-th bucket.
spec fn ahead(rank: real, i: int, before: real) -> bool {
    before < rank || (i == 0 && before == 0real && rank >= 0real)
}

proof fn ranks_lie_in_the_bounds<V>(
    val: spec_fn(V) -> real,
    rank: real,
    counts: Seq<V>,
    bounds: Seq<V>,
    i: int,
    before: real,
)
    requires
        is_histogram(val, counts, bounds),
        0 <= i <= counts.len(),
        ahead(rank, i, before),
    ensures
        i <= bounds.len() ==> lower(val, bounds, i) <= at_rank(
            val,
            rank,
            counts,
            bounds,
            i,
            before,
        ),
        at_rank(val, rank, counts, bounds, i, before) <= val(bounds.last()),
        i < bounds.len() && before + val(counts[i]) >= rank ==> at_rank(
            val,
            rank,
            counts,
            bounds,
            i,
            before,
        ) <= val(bounds[i]),
    decreases counts.len() - i,
{
    let last = bounds[bounds.len() - 1];
    assert(bounds.last() == last);
    assert(val(bounds[0]) <= val(last));
    if 0 < i <= bounds.len() {
        assert(val(bounds[i - 1]) <= val(last));
    }
    if i < counts.len() {
        let cum = before + val(counts[i]);
        if i < bounds.len() {
            assert(val(bounds[i]) <= val(last));
            assert(lower(val, bounds, i) <= val(bounds[i])) by {
                if i > 0 {
                    assert(val(bounds[i - 1]) <= val(bounds[i]));
                }
            }
        }
        if cum >= rank {
            if i < bounds.len() && val(counts[i]) > 0real {
                let part = rank - before;
                interpolation_ascends(
                    lower(val, bounds, i),
                    val(bounds[i]),
                    part,
                    part,
                    val(counts[i]),
                );
            }
        } else {
            ranks_lie_in_the_bounds(val, rank, counts, bounds, i + 1, cum);
        }
    }
}

proof fn ranks_ascend<V>(
    val: spec_fn(V) -> real,
    r: real,
    s: real,
    counts: Seq<V>,
    bounds: Seq<V>,
    i: int,
    before: real,
)
    requires
        is_histogram(val, counts, bounds),
        0 <= i <= counts.len(),
        ahead(r, i, before),
        r <= s,
    ensures
        at_rank(val, r, counts, bounds, i, before) <= at_rank(val, s, counts, bounds, i, before),
    decreases counts.len() - i,
{
    if i < counts.len() {
        let cum = before + val(counts[i]);
        ranks_lie_in_the_bounds(val, r, counts, bounds, i, before);
        if cum >= s {
            if i < bounds.len() && val(counts[i]) > 0real {
                assert(lower(val, bounds, i) <= val(bounds[i])) by {
                    if i > 0 {
                        assert(val(bounds[i - 1]) <= val(bounds[i]));
                    }
                }
                interpolation_ascends(
                    lower(val, bounds, i),
                    val(bounds[i]),
                    r - before,
                    s - before,
                    val(counts[i]),
                );
            }
        } else if cum >= r {
            ranks_lie_in_the_bounds(val, s, counts, bounds, i + 1, cum);
        } else {
            ranks_ascend(val, r, s, counts, bounds, i + 1, cum);
        }
    }
}

/// The rank of a quantile.
proof fn quantile_is_at_its_rank<V: Number>(
    val: spec_fn(V) -> real,
    phi: V,
    counts: Seq<V>,
    bounds: Seq<V>,
    res: Option<V>,
)
    requires
        exact(val),
        bounds.len() > 0,
        counts.len() > 0,
        sum_of(val, counts, counts.len() as int) > 0real,
        is_quantile(phi, counts, bounds, res),
    ensures
        res is Some,
        val(res->0) == at_rank(
            val,
            unit_of(val(phi)) * sum_of(val, counts, counts.len() as int),
            counts,
            bounds,
            0,
            0real,
        ),
{
    let (zero, total, none) = choose|zero: V, total: V, none: bool|
        {
            &&& #[trigger] counted(0, zero)
            &&& #[trigger] summed(zero, counts, counts.len(), total)
            &&& #[trigger] compared(Comparison::LessOrEqual, total, zero, none)
            &&& if none || counts.len() == 0 {
                res is None
            } else {
                exists|one: V, unit: V, rank: V|
                    {
                        &&& #[trigger] counted(1, one)
                        &&& #[trigger] into_unit(phi, zero, one, unit)
                        &&& #[trigger] calculated(Arithmetic::Mul, unit, total, rank)
                        &&& quantile_from(zero, rank, counts, bounds, 0, zero, res)
                    }
            }
        };
    assert(val(zero) == 0real);
    sums_are_exact(val, zero, counts, counts.len(), total);
    assert(none == (val(total) <= val(zero)));
    let (one, unit, rank) = choose|one: V, unit: V, rank: V|
        {
            &&& #[trigger] counted(1, one)
            &&& #[trigger] into_unit(phi, zero, one, unit)
            &&& #[trigger] calculated(Arithmetic::Mul, unit, total, rank)
            &&& quantile_from(zero, rank, counts, bounds, 0, zero, res)
        };
    assert(val(one) == 1real);
    let below = choose|below: bool| #[trigger]
        compared(Comparison::Less, phi, zero, below) && if below {
            unit == zero
        } else {
            exists|above: bool| #[trigger]
                compared(Comparison::Greater, phi, one, above) && unit == if above {
                    one
                } else {
                    phi
                }
        };
    assert(below == (val(phi) < 0real));
    assert(val(unit) == unit_of(val(phi)));
    assert(val(rank) == val(unit) * val(total));
    quantiles_are_exact(val, zero, rank, counts, bounds, 0, zero, res);
}

proof fn quantiles_follow_their_units<V: Number>(
    val: spec_fn(V) -> real,
    phi: V,
    psi: V,
    counts: Seq<V>,
    bounds: Seq<V>,
    q: Option<V>,
    r: Option<V>,
)
    requires
        exact(val),
        is_histogram(val, counts, bounds),
        unit_of(val(phi)) <= unit_of(val(psi)),
        is_quantile(phi, counts, bounds, q),
        is_quantile(psi, counts, bounds, r),
    ensures
        q is Some,
        r is Some,
        0real <= val(q->0) <= val(r->0) <= val(bounds.last()),
{
    let total = sum_of(val, counts, counts.len() as int);
    let (u, v) = (unit_of(val(phi)), unit_of(val(psi)));
    quantile_is_at_its_rank(val, phi, counts, bounds, q);
    quantile_is_at_its_rank(val, psi, counts, bounds, r);
    assert(0real <= u * total <= v * total) by (nonlinear_arith)
        requires
            0real <= u <= v,
            total > 0real,
    ;
    ranks_lie_in_the_bounds(val, u * total, counts, bounds, 0, 0real);
    ranks_lie_in_the_bounds(val, v * total, counts, bounds, 0, 0real);
    ranks_ascend(val, u * total, v * total, counts, bounds, 0, 0real);
}

/// Of a histogram with observations there is every quantile. It lies from zero to the
/// last bound, and grows with `phi`. This is so where the operations are exact.
pub proof fn quantiles_ascend<V: Number>(
    val: spec_fn(V) -> real,
    phi: V,
    psi: V,
    counts: Seq<V>,
    bounds: Seq<V>,
    q: Option<V>,
    r: Option<V>,
)
    requires
        exact(val),
        is_histogram(val, counts, bounds),
        val(phi) <= val(psi),
        is_quantile(phi, counts, bounds, q),
        is_quantile(psi, counts, bounds, r),
    ensures
        q is Some,
        r is Some,
        0real <= val(q->0) <= val(r->0) <= val(bounds.last()),
{
    quantiles_follow_their_units(val, phi, psi, counts, bounds, q, r);
}

/// The sum of numbers.
pub open spec fn total(values: Seq<real>) -> real {
    values.fold_left(0real, |sum: real, x: real| sum + x)
}

/// The numbers that values stand for.
pub open spec fn numbers<V>(val: spec_fn(V) -> real, values: Seq<V>) -> Seq<real> {
    values.map_values(val)
}

/// The sum of the first counts is their total.
pub proof fn sums_are_totals<V>(val: spec_fn(V) -> real, counts: Seq<V>, n: int)
    requires
        0 <= n <= counts.len(),
    ensures
        sum_of(val, counts, n) == total(numbers(val, counts.take(n))),
    decreases n,
{
    let part = numbers(val, counts.take(n));
    if n > 0 {
        sums_are_totals(val, counts, n - 1);
        assert(part.drop_last() =~= numbers(val, counts.take(n - 1)));
        assert(part.last() == val(counts[n - 1]));
    }
}

proof fn sums_grow<V>(val: spec_fn(V) -> real, counts: Seq<V>, m: int, n: int)
    requires
        0 <= m <= n <= counts.len(),
        forall|j: int| 0 <= j < counts.len() ==> val(#[trigger] counts[j]) >= 0real,
    ensures
        0real <= sum_of(val, counts, m) <= sum_of(val, counts, n),
    decreases n,
{
    if m < n {
        sums_grow(val, counts, m, n - 1);
        assert(val(counts[n - 1]) >= 0real);
    } else if m > 0 {
        sums_grow(val, counts, m - 1, m - 1);
        assert(val(counts[m - 1]) >= 0real);
    }
}

proof fn ranks_skip_to_their_bucket<V>(
    val: spec_fn(V) -> real,
    rank: real,
    counts: Seq<V>,
    bounds: Seq<V>,
    j: int,
    i: int,
)
    requires
        0 <= j <= i < counts.len(),
        forall|j: int| 0 <= j < counts.len() ==> val(#[trigger] counts[j]) >= 0real,
        i == 0 || sum_of(val, counts, i) < rank,
        rank <= sum_of(val, counts, i + 1),
    ensures
        at_rank(val, rank, counts, bounds, j, sum_of(val, counts, j)) == at_rank_in(
            val,
            rank,
            counts,
            bounds,
            i,
            sum_of(val, counts, i),
        ),
    decreases i - j,
{
    assert(sum_of(val, counts, j + 1) == sum_of(val, counts, j) + val(counts[j]));
    if j < i {
        sums_grow(val, counts, j + 1, i);
        ranks_skip_to_their_bucket(val, rank, counts, bounds, j + 1, i);
    }
}

/// Where the rank `phi * total` of a quantile falls into a bucket, behind what is counted
/// in the buckets before it and not behind what is counted up to its end.
pub open spec fn falls_into<V>(
    val: spec_fn(V) -> real,
    phi: V,
    counts: Seq<V>,
    i: int,
) -> bool {
    let unit = if val(phi) < 0real {
        0real
    } else if val(phi) > 1real {
        1real
    } else {
        val(phi)
    };
    let rank = unit * total(numbers(val, counts));
    &&& i == 0 || total(numbers(val, counts.take(i))) < rank
    &&& rank <= total(numbers(val, counts.take(i + 1)))
}

proof fn quantile_of_a_bucket<V: Number>(
    val: spec_fn(V) -> real,
    phi: V,
    counts: Seq<V>,
    bounds: Seq<V>,
    q: Option<V>,
    i: int,
)
    requires
        exact(val),
        is_quantile(phi, counts, bounds, q),
        bounds.len() > 0,
        0 <= i < counts.len(),
        forall|j: int| 0 <= j < counts.len() ==> val(#[trigger] counts[j]) >= 0real,
        total(numbers(val, counts)) > 0real,
        falls_into(val, phi, counts, i),
    ensures
        q is Some,
        val(q->0) == at_rank_in(
            val,
            unit_of(val(phi)) * total(numbers(val, counts)),
            counts,
            bounds,
            i,
            total(numbers(val, counts.take(i))),
        ),
{
    let n = counts.len() as int;
    let rank = unit_of(val(phi)) * total(numbers(val, counts));
    assert(counts.take(n) =~= counts);
    sums_are_totals(val, counts, n);
    sums_are_totals(val, counts, i);
    sums_are_totals(val, counts, i + 1);
    quantile_is_at_its_rank(val, phi, counts, bounds, q);
    ranks_skip_to_their_bucket(val, rank, counts, bounds, 0, i);
}

/// Where the rank of a quantile falls into a bucket with a finite upper bound and a
/// positive count, the quantile divides the bucket as the rank divides its count: it is
/// `lower + (upper - lower) * (rank - counted before) / count`, where the first bucket
/// reaches from zero. This is so where the operations are exact, and no count is negative.
pub proof fn quantiles_interpolate<V: Number>(
    val: spec_fn(V) -> real,
    phi: V,
    counts: Seq<V>,
    bounds: Seq<V>,
    q: Option<V>,
    i: int,
)
    requires
        exact(val),
        is_quantile(phi, counts, bounds, q),
        0 <= i < bounds.len(),
        i < counts.len(),
        forall|j: int| 0 <= j < counts.len() ==> val(#[trigger] counts[j]) >= 0real,
        val(counts[i]) > 0real,
        falls_into(val, phi, counts, i),
    ensures
        q is Some,
        ({
            let low = if i == 0 {
                0real
            } else {
                val(bounds[i - 1])
            };
            let unit = if val(phi) < 0real {
                0real
            } else if val(phi) > 1real {
                1real
            } else {
                val(phi)
            };
            let rank = unit * total(numbers(val, counts));
            val(q->0) == low + (val(bounds[i]) - low) * (rank - total(
                numbers(val, counts.take(i)),
            )) / val(counts[i])
        }),
{
    let n = counts.len() as int;
    assert(counts.take(n) =~= counts);
    sums_are_totals(val, counts, n);
    sums_grow(val, counts, 0, i);
    sums_grow(val, counts, i + 1, n);
    assert(sum_of(val, counts, i + 1) == sum_of(val, counts, i) + val(counts[i]));
    quantile_of_a_bucket(val, phi, counts, bounds, q, i);
}

/// Inside a bucket of some width and a positive count, a higher quantile is strictly
/// higher.
pub proof fn quantiles_rise_in_a_bucket<V: Number>(
    val: spec_fn(V) -> real,
    phi: V,
    psi: V,
    counts: Seq<V>,
    bounds: Seq<V>,
    q: Option<V>,
    r: Option<V>,
    i: int,
)
    requires
        exact(val),
        is_quantile(phi, counts, bounds, q),
        is_quantile(psi, counts, bounds, r),
        0 <= i < bounds.len(),
        i < counts.len(),
        forall|j: int| 0 <= j < counts.len() ==> val(#[trigger] counts[j]) >= 0real,
        val(counts[i]) > 0real,
        (if i == 0 {
            0real
        } else {
            val(bounds[i - 1])
        }) < val(bounds[i]),
        falls_into(val, phi, counts, i),
        falls_into(val, psi, counts, i),
        0real <= val(phi) < val(psi) <= 1real,
    ensures
        q is Some,
        r is Some,
        val(q->0) < val(r->0),
{
    let n = counts.len() as int;
    let low = if i == 0 {
        0real
    } else {
        val(bounds[i - 1])
    };
    let (width, all, before, count) = (
        val(bounds[i]) - low,
        total(numbers(val, counts)),
        total(numbers(val, counts.take(i))),
        val(counts[i]),
    );
    quantiles_interpolate(val, phi, counts, bounds, q, i);
    quantiles_interpolate(val, psi, counts, bounds, r, i);
    assert(counts.take(n) =~= counts);
    sums_are_totals(val, counts, n);
    sums_grow(val, counts, 0, i);
    sums_grow(val, counts, i + 1, n);
    assert(sum_of(val, counts, i + 1) == sum_of(val, counts, i) + count);
    let (x, y) = (val(phi) * all - before, val(psi) * all - before);
    assert(x < y) by (nonlinear_arith)
        requires
            x == val(phi) * all - before,
            y == val(psi) * all - before,
            val(phi) < val(psi),
            all > 0real,
    ;
    assert(width * x / count < width * y / count) by (nonlinear_arith)
        requires
            width > 0real,
            x < y,
            count > 0real,
    ;
}

/// The quantile whose rank lies halfway through the count of a bucket is the midpoint of
/// the bucket.
pub proof fn halfway_is_the_midpoint<V: Number>(
    val: spec_fn(V) -> real,
    phi: V,
    counts: Seq<V>,
    bounds: Seq<V>,
    q: Option<V>,
    i: int,
)
    requires
        exact(val),
        is_quantile(phi, counts, bounds, q),
        0 <= i < bounds.len(),
        i < counts.len(),
        forall|j: int| 0 <= j < counts.len() ==> val(#[trigger] counts[j]) >= 0real,
        val(counts[i]) > 0real,
        0real <= val(phi) <= 1real,
        val(phi) * total(numbers(val, counts)) == total(numbers(val, counts.take(i))) + val(
            counts[i],
        ) / 2real,
    ensures
        q is Some,
        val(q->0) == (val(bounds[i]) + if i == 0 {
            0real
        } else {
            val(bounds[i - 1])
        }) / 2real,
{
    let low = if i == 0 {
        0real
    } else {
        val(bounds[i - 1])
    };
    let (width, count) = (val(bounds[i]) - low, val(counts[i]));
    sums_are_totals(val, counts, i);
    sums_are_totals(val, counts, i + 1);
    assert(sum_of(val, counts, i + 1) == sum_of(val, counts, i) + count);
    assert(count / 2real < count);
    quantiles_interpolate(val, phi, counts, bounds, q, i);
    assert(width * (count / 2real) / count == width / 2real) by (nonlinear_arith)
        requires
            count > 0real,
    ;
}

/// Where the rank of a quantile lies behind every finite bound, the quantile is the last
/// bound; where it falls into the first bucket, and that is empty, the first bound; and
/// without observations there is no quantile.
pub proof fn quantiles_stay_on_the_bounds<V: Number>(
    val: spec_fn(V) -> real,
    phi: V,
    counts: Seq<V>,
    bounds: Seq<V>,
    q: Option<V>,
)
    requires
        exact(val),
        is_quantile(phi, counts, bounds, q),
        bounds.len() > 0,
        counts.len() == bounds.len() + 1,
        forall|j: int| 0 <= j < counts.len() ==> val(#[trigger] counts[j]) >= 0real,
    ensures
        q is None <==> total(numbers(val, counts)) == 0real,
        q is Some && falls_into(val, phi, counts, bounds.len() as int) ==> val(q->0) == val(
            bounds[bounds.len() - 1],
        ),
        q is Some && falls_into(val, phi, counts, 0) && val(counts[0]) == 0real ==> val(q->0)
            == val(bounds[0]),
{
    let n = counts.len() as int;
    assert(counts.take(n) =~= counts);
    sums_are_totals(val, counts, n);
    sums_grow(val, counts, 0, n);
    if total(numbers(val, counts)) > 0real {
        quantile_is_at_its_rank(val, phi, counts, bounds, q);
        if falls_into(val, phi, counts, n - 1) {
            quantile_of_a_bucket(val, phi, counts, bounds, q, n - 1);
        }
        if falls_into(val, phi, counts, 0) {
            quantile_of_a_bucket(val, phi, counts, bounds, q, 0);
        }
    } else {
        nothing_has_no_quantile(val, phi, counts, bounds, q);
    }
}

proof fn nothing_has_no_quantile<V: Number>(
    val: spec_fn(V) -> real,
    phi: V,
    counts: Seq<V>,
    bounds: Seq<V>,
    q: Option<V>,
)
    requires
        exact(val),
        is_quantile(phi, counts, bounds, q),
        sum_of(val, counts, counts.len() as int) <= 0real,
    ensures
        q is None,
{
    let (zero, sum, none) = choose|zero: V, sum: V, none: bool|
        {
            &&& #[trigger] counted(0, zero)
            &&& #[trigger] summed(zero, counts, counts.len(), sum)
            &&& #[trigger] compared(Comparison::LessOrEqual, sum, zero, none)
            &&& if none || counts.len() == 0 {
                q is None
            } else {
                exists|one: V, unit: V, rank: V|
                    {
                        &&& #[trigger] counted(1, one)
                        &&& #[trigger] into_unit(phi, zero, one, unit)
                        &&& #[trigger] calculated(Arithmetic::Mul, unit, sum, rank)
                        &&& quantile_from(zero, rank, counts, bounds, 0, zero, q)
                    }
            }
        };
    assert(val(zero) == 0real);
    sums_are_exact(val, zero, counts, counts.len(), sum);
    assert(none == (val(sum) <= val(zero)));
}

proof fn sums_agree<V: Number>(zero: V, values: Seq<V>, n: nat, x: V, y: V)
    requires
        single_valued::<V>(),
        summed(zero, values, n, x),
        summed(zero, values, n, y),
    ensures
        x == y,
    decreases n,
{
    if n > 0 {
        let m = (n - 1) as nat;
        let p = choose|p: V|
            summed(zero, values, m, p) && #[trigger] calculated(
                Arithmetic::Add,
                p,
                values[n - 1],
                x,
            );
        let q = choose|q: V|
            summed(zero, values, m, q) && #[trigger] calculated(
                Arithmetic::Add,
                q,
                values[n - 1],
                y,
            );
        sums_agree(zero, values, m, p, q);
    }
}

proof fn interpolations_agree<V: Number>(low: V, high: V, part: V, whole: V, x: V, y: V)
    requires
        single_valued::<V>(),
        interpolated(low, high, part, whole, x),
        interpolated(low, high, part, whole, y),
    ensures
        x == y,
{
    let (a, b, c) = choose|width: V, product: V, share: V|
        {
            &&& #[trigger] calculated(Arithmetic::Sub, high, low, width)
            &&& #[trigger] calculated(Arithmetic::Mul, width, part, product)
            &&& #[trigger] calculated(Arithmetic::Div, product, whole, share)
            &&& calculated(Arithmetic::Add, low, share, x)
        };
    let (d, e, f) = choose|width: V, product: V, share: V|
        {
            &&& #[trigger] calculated(Arithmetic::Sub, high, low, width)
            &&& #[trigger] calculated(Arithmetic::Mul, width, part, product)
            &&& #[trigger] calculated(Arithmetic::Div, product, whole, share)
            &&& calculated(Arithmetic::Add, low, share, y)
        };
    assert(a == d);
    assert(b == e);
    assert(c == f);
}

proof fn buckets_agree<V: Number>(
    zero: V,
    rank: V,
    counts: Seq<V>,
    bounds: Seq<V>,
    i: int,
    before: V,
    x: Option<V>,
    y: Option<V>,
)
    requires
        single_valued::<V>(),
        quantile_in_bucket(zero, rank, counts, bounds, i, before, x),
        quantile_in_bucket(zero, rank, counts, bounds, i, before, y),
    ensures
        x == y,
{
    if i < bounds.len() {
        let low = if i == 0 {
            zero
        } else {
            bounds[i - 1]
        };
        let e = choose|empty: bool| #[trigger]
            compared(Comparison::LessOrEqual, counts[i], zero, empty) && if empty {
                x == Some(bounds[i])
            } else {
                exists|part: V| #[trigger]
                    calculated(Arithmetic::Sub, rank, before, part) && x is Some && interpolated(
                        low,
                        bounds[i],
                        part,
                        counts[i],
                        x->0,
                    )
            };
        let f = choose|empty: bool| #[trigger]
            compared(Comparison::LessOrEqual, counts[i], zero, empty) && if empty {
                y == Some(bounds[i])
            } else {
                exists|part: V| #[trigger]
                    calculated(Arithmetic::Sub, rank, before, part) && y is Some && interpolated(
                        low,
                        bounds[i],
                        part,
                        counts[i],
                        y->0,
                    )
            };
        assert(e == f);
        if !e {
            let p = choose|part: V| #[trigger]
                calculated(Arithmetic::Sub, rank, before, part) && x is Some && interpolated(
                    low,
                    bounds[i],
                    part,
                    counts[i],
                    x->0,
                );
            let q = choose|part: V| #[trigger]
                calculated(Arithmetic::Sub, rank, before, part) && y is Some && interpolated(
                    low,
                    bounds[i],
                    part,
                    counts[i],
                    y->0,
                );
            assert(p == q);
            interpolations_agree(low, bounds[i], p, counts[i], x->0, y->0);
        }
    }
}

proof fn quantiles_agree<V: Number>(
    zero: V,
    rank: V,
    counts: Seq<V>,
    bounds: Seq<V>,
    i: int,
    before: V,
    x: Option<V>,
    y: Option<V>,
)
    requires
        single_valued::<V>(),
        quantile_from(zero, rank, counts, bounds, i, before, x),
        quantile_from(zero, rank, counts, bounds, i, before, y),
    ensures
        x == y,
    decreases counts.len() - i,
{
    if 0 <= i < counts.len() {
        let (c, s) = choose|cum: V, reached: bool|
            {
                &&& #[trigger] calculated(Arithmetic::Add, before, counts[i], cum)
                &&& #[trigger] compared(Comparison::GreaterOrEqual, cum, rank, reached)
                &&& if reached {
                    quantile_in_bucket(zero, rank, counts, bounds, i, before, x)
                } else {
                    quantile_from(zero, rank, counts, bounds, i + 1, cum, x)
                }
            };
        let (d, t) = choose|cum: V, reached: bool|
            {
                &&& #[trigger] calculated(Arithmetic::Add, before, counts[i], cum)
                &&& #[trigger] compared(Comparison::GreaterOrEqual, cum, rank, reached)
                &&& if reached {
                    quantile_in_bucket(zero, rank, counts, bounds, i, before, y)
                } else {
                    quantile_from(zero, rank, counts, bounds, i + 1, cum, y)
                }
            };
        assert(c == d);
        assert(s == t);
        if s {
            buckets_agree(zero, rank, counts, bounds, i, before, x, y);
        } else {
            quantiles_agree(zero, rank, counts, bounds, i + 1, c, x, y);
        }
    }
}

/// Whether the comparisons order zero and one: neither is less than zero or greater than
/// one.
pub open spec fn unit_is_ordered<V: Number>() -> bool {
    &&& forall|zero: V, t: bool|
        counted(0, zero) && #[trigger] compared(Comparison::Less, zero, zero, t) ==> !t
    &&& forall|zero: V, one: V, t: bool|
        counted(0, zero) && counted(1, one) && #[trigger] compared(Comparison::Less, one, zero, t)
            ==> !t
    &&& forall|zero: V, one: V, t: bool|
        counted(0, zero) && counted(1, one) && #[trigger] compared(
            Comparison::Greater,
            zero,
            one,
            t,
        ) ==> !t
    &&& forall|one: V, t: bool|
        counted(1, one) && #[trigger] compared(Comparison::Greater, one, one, t) ==> !t
}

/// Whether a value lies below zero, and whether above one, decide what it is moved to.
proof fn unit_is_decided<V: Number>(
    phi: V,
    zero: V,
    one: V,
    unit: V,
) -> (sides: (bool, bool))
    requires
        into_unit(phi, zero, one, unit),
    ensures
        compared(Comparison::Less, phi, zero, sides.0),
        sides.0 ==> unit == zero,
        !sides.0 ==> compared(Comparison::Greater, phi, one, sides.1),
        !sides.0 && sides.1 ==> unit == one,
        !sides.0 && !sides.1 ==> unit == phi,
{
    let below = choose|below: bool| #[trigger]
        compared(Comparison::Less, phi, zero, below) && if below {
            unit == zero
        } else {
            exists|above: bool| #[trigger]
                compared(Comparison::Greater, phi, one, above) && unit == if above {
                    one
                } else {
                    phi
                }
        };
    if below {
        (below, false)
    } else {
        let above = choose|above: bool| #[trigger]
            compared(Comparison::Greater, phi, one, above) && unit == if above {
                one
            } else {
                phi
            };
        (below, above)
    }
}

proof fn units_agree<V: Number>(phi: V, zero: V, one: V, x: V, y: V)
    requires
        single_valued::<V>(),
        into_unit(phi, zero, one, x),
        into_unit(phi, zero, one, y),
    ensures
        x == y,
{
    let a = unit_is_decided(phi, zero, one, x);
    let b = unit_is_decided(phi, zero, one, y);
    assert(a.0 == b.0);
    if !a.0 {
        assert(a.1 == b.1);
    }
}

proof fn units_stay<V: Number>(phi: V, zero: V, one: V, unit: V, again: V)
    requires
        single_valued::<V>(),
        unit_is_ordered::<V>(),
        counted(0, zero),
        counted(1, one),
        into_unit(phi, zero, one, unit),
        into_unit(unit, zero, one, again),
    ensures
        again == unit,
{
    let a = unit_is_decided(phi, zero, one, unit);
    let b = unit_is_decided(unit, zero, one, again);
    if !a.0 && !a.1 {
        units_agree(phi, zero, one, unit, again);
    }
}

/// The steps to a quantile, with the values that they give.
proof fn quantile_is_found<V: Number>(
    phi: V,
    counts: Seq<V>,
    bounds: Seq<V>,
    res: Option<V>,
    zero: V,
    one: V,
) -> (found: (V, V, V, bool))
    requires
        single_valued::<V>(),
        counted(0, zero),
        counted(1, one),
        is_quantile(phi, counts, bounds, res),
    ensures
        summed(zero, counts, counts.len(), found.0),
        compared(Comparison::LessOrEqual, found.0, zero, found.3),
        found.3 || counts.len() == 0 ==> res is None,
        !found.3 && counts.len() > 0 ==> {
            &&& into_unit(phi, zero, one, found.1)
            &&& calculated(Arithmetic::Mul, found.1, found.0, found.2)
            &&& quantile_from(zero, found.2, counts, bounds, 0, zero, res)
        },
{
    let (z, total, none) = choose|zero: V, total: V, none: bool|
        {
            &&& #[trigger] counted(0, zero)
            &&& #[trigger] summed(zero, counts, counts.len(), total)
            &&& #[trigger] compared(Comparison::LessOrEqual, total, zero, none)
            &&& if none || counts.len() == 0 {
                res is None
            } else {
                exists|one: V, unit: V, rank: V|
                    {
                        &&& #[trigger] counted(1, one)
                        &&& #[trigger] into_unit(phi, zero, one, unit)
                        &&& #[trigger] calculated(Arithmetic::Mul, unit, total, rank)
                        &&& quantile_from(zero, rank, counts, bounds, 0, zero, res)
                    }
            }
        };
    assert(z == zero);
    if none || counts.len() == 0 {
        (total, phi, phi, none)
    } else {
        let (o, unit, rank) = choose|one: V, unit: V, rank: V|
            {
                &&& #[trigger] counted(1, one)
                &&& #[trigger] into_unit(phi, zero, one, unit)
                &&& #[trigger] calculated(Arithmetic::Mul, unit, total, rank)
                &&& quantile_from(zero, rank, counts, bounds, 0, zero, res)
            };
        assert(o == one);
        (total, unit, rank, none)
    }
}

/// A quantile is that of its `phi` moved into the range from zero to one, whatever the
/// histogram.
pub proof fn quantiles_are_of_the_unit<V: Number>(
    phi: V,
    zero: V,
    one: V,
    unit: V,
    counts: Seq<V>,
    bounds: Seq<V>,
    q: Option<V>,
    r: Option<V>,
)
    requires
        single_valued::<V>(),
        unit_is_ordered::<V>(),
        counted(0, zero),
        counted(1, one),
        into_unit(phi, zero, one, unit),
        is_quantile(phi, counts, bounds, q),
        is_quantile(unit, counts, bounds, r),
    ensures
        q == r,
{
    let a = quantile_is_found(phi, counts, bounds, q, zero, one);
    let b = quantile_is_found(unit, counts, bounds, r, zero, one);
    sums_agree(zero, counts, counts.len(), a.0, b.0);
    assert(a.3 == b.3);
    if !a.3 && counts.len() > 0 {
        units_agree(phi, zero, one, unit, a.1);
        units_stay(phi, zero, one, unit, b.1);
        assert(a.2 == b.2);
        quantiles_agree(zero, a.2, counts, bounds, 0, zero, q, r);
    }
}

} // verus!

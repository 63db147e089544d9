//! Laws of the functions that are evaluated on values: signs, clamps and `scalar`.
use crate::eval::RangeWindow;
use crate::evaluate::{
    changed, folds_to_instant, folds_to_range, instant_changed, instant_count, instant_value,
    range_changed, range_count, range_value, Change, LeafVal,
};
use crate::grouping::is_ordered_by;
use crate::number::Number;
use crate::promql::PromExpr;
use crate::series::{folds_to, samples_view, series_view, InstantVal, RangeVal};
use vstd::prelude::*;

verus! {

proof fn function_names_differ()
    ensures
        "scalar"@.len() == 6,
        "clamp_min"@.len() == 9,
        "clamp_min"@[7] == 'i',
        "clamp_max"@.len() == 9,
        "clamp_max"@[7] == 'a',
{
    reveal_strlit("scalar");
    reveal_strlit("clamp_min");
    reveal_strlit("clamp_max");
}

/// Whether two instant values differ in their numbers alone: both are scalars, or vectors
/// of the same samples with the same labels in the same order.
pub open spec fn instant_values_change<V>(
    v: InstantVal<V>,
    out: InstantVal<V>,
    value: spec_fn(V, V) -> bool,
) -> bool {
    match (v, out) {
        (InstantVal::Scalar(a), InstantVal::Scalar(x)) => value(a, x),
        (InstantVal::Vector(s), InstantVal::Vector(o)) => o@.len() == s@.len() && forall|i: int|
            0 <= i < s@.len() ==> (#[trigger] o@[i]).0@ == s@[i].0@ && value(s@[i].1, o@[i].1),
        _ => false,
    }
}

/// Whether two range values differ in their numbers alone: both are scalars, or sets of the
/// same series with the same labels, and points at the same times.
pub open spec fn range_values_change<V>(
    v: RangeVal<V>,
    out: RangeVal<V>,
    value: spec_fn(V, V) -> bool,
) -> bool {
    match (v, out) {
        (RangeVal::Scalar(a), RangeVal::Scalar(x)) => value(a, x),
        (RangeVal::Vector(m), RangeVal::Vector(o)) => o@.dom() == m@.dom() && forall|k: Seq<char>|
            #![trigger o@[k]]
            m@.dom().contains(k) ==> o@[k].labels@ == m@[k].labels@ && o@[k].points@.len()
                == m@[k].points@.len() && forall|i: int|
                0 <= i < m@[k].points@.len() ==> (#[trigger] o@[k].points@[i]).0
                    == m@[k].points@[i].0 && value(m@[k].points@[i].1, o@[k].points@[i].1),
        _ => false,
    }
}

proof fn instant_changes<V: Number>(
    c: Change<V>,
    v: InstantVal<V>,
    out: InstantVal<V>,
    value: spec_fn(V, V) -> bool,
)
    requires
        instant_changed(c, v, out),
        forall|a: V, x: V| #[trigger] changed(c, a, x) ==> value(a, x),
    ensures
        instant_values_change(v, out, value),
{
    if let (InstantVal::Vector(s), InstantVal::Vector(o)) = (v, out) {
        let (a, b) = (samples_view(s@), samples_view(o@));
        assert forall|i: int| 0 <= i < s@.len() implies (#[trigger] o@[i]).0@ == s@[i].0@ && value(
            s@[i].1,
            o@[i].1,
        ) by {
            assert(b[i].0 == a[i].0);
        }
    }
}

proof fn range_changes<V: Number>(
    c: Change<V>,
    v: RangeVal<V>,
    out: RangeVal<V>,
    value: spec_fn(V, V) -> bool,
)
    requires
        range_changed(c, v, out),
        forall|a: V, x: V| #[trigger] changed(c, a, x) ==> value(a, x),
    ensures
        range_values_change(v, out, value),
{
    if let (RangeVal::Vector(m), RangeVal::Vector(o)) = (v, out) {
        let (a, b) = (series_view(m@), series_view(o@));
        assert(a.dom() =~= m@.dom());
        assert(b.dom() =~= o@.dom());
        assert forall|k: Seq<char>|
            #![trigger o@[k]]
            m@.dom().contains(k) implies o@[k].labels@ == m@[k].labels@ && o@[k].points@.len()
            == m@[k].points@.len() && forall|i: int|
            0 <= i < m@[k].points@.len() ==> (#[trigger] o@[k].points@[i]).0 == m@[k].points@[i].0
                && value(m@[k].points@[i].1, o@[k].points@[i].1) by {
            assert(b[k].labels == a[k].labels);
            assert(b[k].points == o@[k].points@);
            assert(a[k].points == m@[k].points@);
        }
    }
}

/// A sign before an expression negates its scalar, or the value of each sample and of each
/// point, and changes nothing else. Returns the value of the expression at the instant.
pub proof fn signs_negate_instants<V: Number>(
    e: Box<PromExpr>,
    leaves: Seq<LeafVal<V>>,
    out: InstantVal<V>,
) -> (v: InstantVal<V>)
    requires
        instant_value(PromExpr::Unary(e), leaves, out),
    ensures
        instant_value(*e, leaves, v),
        instant_values_change(v, out, |a: V, x: V| call_ensures(V::negated, (a,), x)),
{
    let v = choose|v: InstantVal<V>|
        instant_value(*e, leaves, v) && #[trigger] instant_changed(Change::Negate, v, out);
    instant_changes(Change::Negate, v, out, |a: V, x: V| call_ensures(V::negated, (a,), x));
    v
}

/// The same over a range.
pub proof fn signs_negate_ranges<V: Number>(
    e: Box<PromExpr>,
    win: RangeWindow,
    step: i64,
    leaves: Seq<LeafVal<V>>,
    out: RangeVal<V>,
) -> (v: RangeVal<V>)
    requires
        range_value(PromExpr::Unary(e), win, step, leaves, out),
    ensures
        range_value(*e, win, step, leaves, v),
        range_values_change(v, out, |a: V, x: V| call_ensures(V::negated, (a,), x)),
{
    let v = choose|v: RangeVal<V>|
        range_value(*e, win, step, leaves, v) && #[trigger] range_changed(Change::Negate, v, out);
    range_changes(Change::Negate, v, out, |a: V, x: V| call_ensures(V::negated, (a,), x));
    v
}

/// Whether `x` is what a value folds to: a scalar to itself, a vector of exactly one sample
/// to its value, and every other vector to the undefined value.
pub open spec fn is_folded<V: Number>(v: InstantVal<V>, x: V) -> bool {
    match v {
        InstantVal::Scalar(a) => x == a,
        InstantVal::Vector(s) => if s@.len() == 1 {
            x == s@[0].1
        } else {
            call_ensures(V::undefined, (), x)
        },
    }
}

/// `scalar(v)` folds the value of `v` at an instant. Returns that value.
pub proof fn scalar_folds_instants<V: Number>(
    name: String,
    args: Vec<PromExpr>,
    leaves: Seq<LeafVal<V>>,
    out: InstantVal<V>,
) -> (v: InstantVal<V>)
    requires
        name@ == "scalar"@,
        instant_value(PromExpr::Call { name, args }, leaves, out),
    ensures
        args@.len() > 0,
        instant_value(args@[0], leaves, v),
        out is Scalar && is_folded(v, out->Scalar_0),
{
    choose|v: InstantVal<V>|
        args@.len() > 0 && instant_value(args@[0], leaves, v)
            && #[trigger] folds_to_instant(v, out)
}

/// Over a range `scalar(v)` is constant: what the value of `v` at one instant folds to.
pub proof fn scalar_folds_ranges<V: Number>(
    name: String,
    args: Vec<PromExpr>,
    win: RangeWindow,
    step: i64,
    leaves: Seq<LeafVal<V>>,
    out: RangeVal<V>,
) -> (v: InstantVal<V>)
    requires
        name@ == "scalar"@,
        range_value(PromExpr::Call { name, args }, win, step, leaves, out),
    ensures
        args@.len() > 0,
        instant_value(args@[0], leaves, v),
        out is Scalar && is_folded(v, out->Scalar_0),
{
    choose|v: InstantVal<V>|
        args@.len() > 0 && instant_value(args@[0], leaves, v)
            && #[trigger] folds_to_range(v, out)
}

/// Whether `x` is the value floored at the bound (`clamp_min`) or capped at it
/// (`clamp_max`): the greater, or the lesser, of the two.
pub open spec fn is_clamped<V>(
    val: spec_fn(V) -> real,
    name: Seq<char>,
    bound: V,
    a: V,
    x: V,
) -> bool {
    &&& name == "clamp_min"@ ==> val(x) == if val(a) < val(bound) {
        val(bound)
    } else {
        val(a)
    }
    &&& name == "clamp_max"@ ==> val(x) == if val(a) > val(bound) {
        val(bound)
    } else {
        val(a)
    }
}

proof fn changes_clamp<V: Number>(
    val: spec_fn(V) -> real,
    name: Seq<char>,
    bound: V,
    c: Change<V>,
)
    requires
        is_ordered_by(val),
        name == "clamp_min"@ ==> c == Change::Floor(bound),
        name == "clamp_max"@ ==> c == Change::Cap(bound),
        name == "clamp_min"@ || name == "clamp_max"@,
    ensures
        forall|a: V, x: V| #[trigger]
            changed(c, a, x) ==> is_clamped(val, name, bound, a, x),
{
    function_names_differ();
}

/// `clamp_min(v, b)` and `clamp_max(v, b)` raise the values of `v` below `b` to it, or lower
/// those above it, and change nothing else. Returns the value of `v`, that of `b`, and what
/// it folds to.
pub proof fn clamps_bound_instants<V: Number>(
    val: spec_fn(V) -> real,
    name: String,
    args: Vec<PromExpr>,
    leaves: Seq<LeafVal<V>>,
    out: InstantVal<V>,
) -> (w: (InstantVal<V>, InstantVal<V>, V))
    requires
        is_ordered_by(val),
        name@ == "clamp_min"@ || name@ == "clamp_max"@,
        instant_value(PromExpr::Call { name, args }, leaves, out),
    ensures
        args@.len() >= 2,
        instant_value(args@[0], leaves, w.0),
        instant_value(args@[1], leaves.skip(instant_count(args@[0]) as int), w.1),
        is_folded(w.1, w.2),
        instant_values_change(w.0, out, |a: V, x: V| is_clamped(val, name@, w.2, a, x)),
{
    function_names_differ();
    let floors = name@ == "clamp_min"@;
    let (v, b, x) = if floors {
        choose|v: InstantVal<V>, b: InstantVal<V>, x: V|
            args@.len() >= 2 && instant_value(args@[0], leaves, v) && instant_value(
                args@[1],
                leaves.skip(instant_count(args@[0]) as int),
                b,
            ) && #[trigger] folds_to(b, x) && #[trigger] instant_changed(Change::Floor(x), v, out)
    } else {
        choose|v: InstantVal<V>, b: InstantVal<V>, x: V|
            args@.len() >= 2 && instant_value(args@[0], leaves, v) && instant_value(
                args@[1],
                leaves.skip(instant_count(args@[0]) as int),
                b,
            ) && #[trigger] folds_to(b, x) && #[trigger] instant_changed(Change::Cap(x), v, out)
    };
    let c = if floors {
        Change::Floor(x)
    } else {
        Change::Cap(x)
    };
    changes_clamp(val, name@, x, c);
    instant_changes(c, v, out, |a: V, y: V| is_clamped(val, name@, x, a, y));
    (v, b, x)
}

/// The same over a range, with a bound that is evaluated at one instant.
pub proof fn clamps_bound_ranges<V: Number>(
    val: spec_fn(V) -> real,
    name: String,
    args: Vec<PromExpr>,
    win: RangeWindow,
    step: i64,
    leaves: Seq<LeafVal<V>>,
    out: RangeVal<V>,
) -> (w: (RangeVal<V>, InstantVal<V>, V))
    requires
        is_ordered_by(val),
        name@ == "clamp_min"@ || name@ == "clamp_max"@,
        range_value(PromExpr::Call { name, args }, win, step, leaves, out),
    ensures
        args@.len() >= 2,
        range_value(args@[0], win, step, leaves, w.0),
        instant_value(args@[1], leaves.skip(range_count(args@[0]) as int), w.1),
        is_folded(w.1, w.2),
        range_values_change(w.0, out, |a: V, x: V| is_clamped(val, name@, w.2, a, x)),
{
    function_names_differ();
    let floors = name@ == "clamp_min"@;
    let (v, b, x) = if floors {
        choose|v: RangeVal<V>, b: InstantVal<V>, x: V|
            args@.len() >= 2 && range_value(args@[0], win, step, leaves, v) && instant_value(
                args@[1],
                leaves.skip(range_count(args@[0]) as int),
                b,
            ) && #[trigger] folds_to(b, x) && #[trigger] range_changed(Change::Floor(x), v, out)
    } else {
        choose|v: RangeVal<V>, b: InstantVal<V>, x: V|
            args@.len() >= 2 && range_value(args@[0], win, step, leaves, v) && instant_value(
                args@[1],
                leaves.skip(range_count(args@[0]) as int),
                b,
            ) && #[trigger] folds_to(b, x) && #[trigger] range_changed(Change::Cap(x), v, out)
    };
    let c = if floors {
        Change::Floor(x)
    } else {
        Change::Cap(x)
    };
    changes_clamp(val, name@, x, c);
    range_changes(c, v, out, |a: V, y: V| is_clamped(val, name@, x, a, y));
    (v, b, x)
}

} // verus!

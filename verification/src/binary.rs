//! Laws of binary operators.
use crate::evaluate::{instant_count, instant_value, range_count, range_value, LeafVal};
use crate::eval::RangeWindow;
use crate::grid::Point;
use crate::labels::{kept_labels, rendered};
use crate::matching::{
    bool_of, card_of, instant_values_combined, kind_of, labels_of, matched, matched_instant,
    matched_parts, matched_sample, matched_samples, matched_series, pair_applied, pair_labels,
    pair_points_are, pair_results, partner_from, present, ranges_combined, sample_labels,
    scalar_applied, scalar_instant, scalar_parts, scalar_results, scalar_sample, scalar_samples,
    scalar_vector, value_at, with_results,
};
use crate::number::{Arithmetic, Comparison, Number};
use crate::operators::{applied, calculated, compared, counted, op_of, BinaryOp};
use crate::promql::{BinaryModifier, Cardinality, Grouping, PromExpr};
use crate::quantile::exact;
use crate::series::{
    gathered, samples_view, series_list, series_view, InstantVal, LabelMap, RangeVal, SeriesView,
};
use crate::text::{among, listed_is_among};
use vstd::prelude::*;

verus! {

/// Whether a symbol stands for an arithmetic operator.
pub open spec fn is_arithmetic(symbol: Seq<char>, a: Arithmetic) -> bool {
    match a {
        Arithmetic::Add => symbol == "+"@,
        Arithmetic::Sub => symbol == "-"@,
        Arithmetic::Mul => symbol == "*"@,
        Arithmetic::Div => symbol == "/"@,
        Arithmetic::Mod => symbol == "%"@,
        Arithmetic::Pow => symbol == "^"@,
        Arithmetic::Atan2 => symbol == "atan2"@,
    }
}

/// Whether a symbol stands for a comparison.
pub open spec fn is_comparison(symbol: Seq<char>, c: Comparison) -> bool {
    match c {
        Comparison::Equal => symbol == "=="@,
        Comparison::NotEqual => symbol == "!="@,
        Comparison::Greater => symbol == ">"@,
        Comparison::Less => symbol == "<"@,
        Comparison::GreaterOrEqual => symbol == ">="@,
        Comparison::LessOrEqual => symbol == "<="@,
    }
}

proof fn symbols_differ()
    ensures
        "+"@.len() == 1,
        "+"@[0] == '+',
        "-"@.len() == 1,
        "-"@[0] == '-',
        "*"@.len() == 1,
        "*"@[0] == '*',
        "/"@.len() == 1,
        "/"@[0] == '/',
        "%"@.len() == 1,
        "%"@[0] == '%',
        "^"@.len() == 1,
        "^"@[0] == '^',
        ">"@.len() == 1,
        ">"@[0] == '>',
        "<"@.len() == 1,
        "<"@[0] == '<',
        "atan2"@.len() == 5,
        "=="@.len() == 2,
        "=="@[0] == '=',
        "!="@.len() == 2,
        "!="@[0] == '!',
        ">="@.len() == 2,
        ">="@[0] == '>',
        "<="@.len() == 2,
        "<="@[0] == '<',
{
    reveal_strlit("+");
    reveal_strlit("-");
    reveal_strlit("*");
    reveal_strlit("/");
    reveal_strlit("%");
    reveal_strlit("^");
    reveal_strlit(">");
    reveal_strlit("<");
    reveal_strlit("atan2");
    reveal_strlit("==");
    reveal_strlit("!=");
    reveal_strlit(">=");
    reveal_strlit("<=");
}

proof fn arithmetic_is_read(symbol: Seq<char>, a: Arithmetic)
    requires
        is_arithmetic(symbol, a),
    ensures
        op_of(symbol) == BinaryOp::Arithmetic(a),
{
    symbols_differ();
}

proof fn comparison_is_read(symbol: Seq<char>, c: Comparison)
    requires
        is_comparison(symbol, c),
    ensures
        op_of(symbol) == BinaryOp::Comparison(c),
{
    symbols_differ();
}

/// Whether a value is what the arithmetic operator gives for a left and a right operand.
pub open spec fn gives<V: Number>(a: Arithmetic, left: V, right: V, x: V) -> bool {
    call_ensures(V::calculate, (a, left, right), x)
}

/// Whether `t` says if the comparison holds between a left and a right operand.
pub open spec fn says<V: Number>(c: Comparison, left: V, right: V, t: bool) -> bool {
    call_ensures(V::holds, (c, left, right), t)
}

/// Whether `o` holds the samples of `v`, in their order and without the metric name, each
/// with the value that an operator gives for it.
pub open spec fn each_sample<V>(
    v: Seq<(LabelMap, V)>,
    o: Seq<(LabelMap, V)>,
    value: spec_fn(V, V) -> bool,
) -> bool {
    o.len() == v.len() && forall|i: int|
        0 <= i < v.len() ==> (#[trigger] o[i]).0 == v[i].0.remove("__name__"@) && value(
            v[i].1,
            o[i].1,
        )
}

/// What arithmetic between instant values gives, where one of them is a scalar: for each
/// sample the operator applied to the scalar and the sample's value, with the left operand
/// on the left.
pub open spec fn instant_arithmetic<V: Number>(
    a: Arithmetic,
    l: InstantVal<V>,
    r: InstantVal<V>,
    out: InstantVal<V>,
) -> bool {
    match (l, r) {
        (InstantVal::Scalar(x), InstantVal::Scalar(y)) => out matches InstantVal::Scalar(z)
            && gives(a, x, y, z),
        (InstantVal::Scalar(k), InstantVal::Vector(v)) => out matches InstantVal::Vector(o)
            && each_sample(
            samples_view(v@),
            samples_view(o@),
            |sample: V, x: V| gives(a, k, sample, x),
        ),
        (InstantVal::Vector(v), InstantVal::Scalar(k)) => out matches InstantVal::Vector(o)
            && each_sample(
            samples_view(v@),
            samples_view(o@),
            |sample: V, x: V| gives(a, sample, k, x),
        ),
        (InstantVal::Vector(_), InstantVal::Vector(_)) => true,
    }
}

proof fn all_are_present<T>(parts: Seq<Option<T>>)
    requires
        forall|i: int| 0 <= i < parts.len() ==> (#[trigger] parts[i]) is Some,
    ensures
        present(parts).len() == parts.len(),
        forall|i: int| 0 <= i < parts.len() ==> #[trigger] present(parts)[i] == parts[i]->0,
    decreases parts.len(),
{
    if parts.len() > 0 {
        assert(parts.last() == parts[parts.len() - 1]);
        assert forall|i: int| 0 <= i < parts.drop_last().len() implies (
        #[trigger] parts.drop_last()[i]) is Some by {
            assert(parts[i] is Some);
        }
        all_are_present(parts.drop_last());
    }
}

proof fn arithmetic_with_a_scalar<V: Number>(
    a: Arithmetic,
    l: InstantVal<V>,
    r: InstantVal<V>,
    modifier: Option<BinaryModifier>,
    out: InstantVal<V>,
)
    requires
        instant_values_combined(BinaryOp::Arithmetic(a), l, r, modifier, out),
    ensures
        instant_arithmetic(a, l, r, out),
{
    let op = BinaryOp::Arithmetic(a);
    let rb = bool_of(modifier);
    match (l, r) {
        (InstantVal::Scalar(k), InstantVal::Vector(v)) => {
            let s = samples_view(v@);
            let parts = choose|parts: Seq<Option<(LabelMap, V)>>| #[trigger]
                scalar_samples(op, k, true, rb, s, parts) && samples_view(out->Vector_0@)
                    == present(parts);
            assert forall|i: int| 0 <= i < parts.len() implies (#[trigger] parts[i]) is Some by {}
            all_are_present(parts);
            assert forall|i: int| 0 <= i < s.len() implies (#[trigger] present(parts)[i]).0
                == s[i].0.remove("__name__"@) && gives(a, k, s[i].1, present(parts)[i].1) by {
                assert(parts[i] is Some);
            }
        },
        (InstantVal::Vector(v), InstantVal::Scalar(k)) => {
            let s = samples_view(v@);
            let parts = choose|parts: Seq<Option<(LabelMap, V)>>| #[trigger]
                scalar_samples(op, k, false, rb, s, parts) && samples_view(out->Vector_0@)
                    == present(parts);
            assert forall|i: int| 0 <= i < parts.len() implies (#[trigger] parts[i]) is Some by {}
            all_are_present(parts);
            assert forall|i: int| 0 <= i < s.len() implies (#[trigger] present(parts)[i]).0
                == s[i].0.remove("__name__"@) && gives(a, s[i].1, k, present(parts)[i].1) by {
                assert(parts[i] is Some);
            }
        },
        _ => {},
    }
}

/// The value of an arithmetic expression at an instant is that of its operator between the
/// values of its operands, the left one on the left. Returns these two values.
pub proof fn instant_operands_keep_their_sides<V: Number>(
    op: String,
    lhs: Box<PromExpr>,
    rhs: Box<PromExpr>,
    modifier: Option<BinaryModifier>,
    leaves: Seq<LeafVal<V>>,
    out: InstantVal<V>,
    a: Arithmetic,
) -> (w: (InstantVal<V>, InstantVal<V>))
    requires
        is_arithmetic(op@, a),
        instant_value(PromExpr::Binary { op, lhs, rhs, modifier }, leaves, out),
    ensures
        instant_value(*lhs, leaves, w.0),
        instant_value(*rhs, leaves.skip(instant_count(*lhs) as int), w.1),
        instant_arithmetic(a, w.0, w.1, out),
{
    arithmetic_is_read(op@, a);
    let (l, r) = choose|l: InstantVal<V>, r: InstantVal<V>|
        instant_value(*lhs, leaves, l) && instant_value(
            *rhs,
            leaves.skip(instant_count(*lhs) as int),
            r,
        ) && #[trigger] instant_values_combined(op_of(op@), l, r, modifier, out);
    arithmetic_with_a_scalar(a, l, r, modifier, out);
    (l, r)
}

/// `k op vector` at an instant is, at each sample of the vector, what the operator gives
/// for `k` on the left and the sample on the right. Returns `k` and the vector.
pub proof fn a_number_on_the_left_stays_left<V: Number>(
    op: String,
    bits: u64,
    rhs: Box<PromExpr>,
    modifier: Option<BinaryModifier>,
    leaves: Seq<LeafVal<V>>,
    out: InstantVal<V>,
    a: Arithmetic,
) -> (w: (V, InstantVal<V>))
    requires
        is_arithmetic(op@, a),
        instant_value(
            PromExpr::Binary { op, lhs: Box::new(PromExpr::Number(bits)), rhs, modifier },
            leaves,
            out,
        ),
    ensures
        call_ensures(V::of_bits, (bits,), w.0),
        instant_value(*rhs, leaves, w.1),
        w.1 matches InstantVal::Vector(v) ==> out matches InstantVal::Vector(o) && each_sample(
            samples_view(v@),
            samples_view(o@),
            |sample: V, x: V| call_ensures(V::calculate, (a, w.0, sample), x),
        ),
        w.1 matches InstantVal::Scalar(b) ==> out matches InstantVal::Scalar(x) && call_ensures(
            V::calculate,
            (a, w.0, b),
            x,
        ),
{
    let lhs = Box::new(PromExpr::Number(bits));
    assert(leaves.skip(0) =~= leaves);
    let (l, r) = instant_operands_keep_their_sides(op, lhs, rhs, modifier, leaves, out, a);
    (l->Scalar_0, r)
}

/// `vector op k` at an instant is, at each sample of the vector, what the operator gives
/// for the sample on the left and `k` on the right. Returns the vector and `k`.
pub proof fn a_number_on_the_right_stays_right<V: Number>(
    op: String,
    lhs: Box<PromExpr>,
    bits: u64,
    modifier: Option<BinaryModifier>,
    leaves: Seq<LeafVal<V>>,
    out: InstantVal<V>,
    a: Arithmetic,
) -> (w: (InstantVal<V>, V))
    requires
        is_arithmetic(op@, a),
        instant_value(
            PromExpr::Binary { op, lhs, rhs: Box::new(PromExpr::Number(bits)), modifier },
            leaves,
            out,
        ),
    ensures
        instant_value(*lhs, leaves, w.0),
        call_ensures(V::of_bits, (bits,), w.1),
        w.0 matches InstantVal::Vector(v) ==> out matches InstantVal::Vector(o) && each_sample(
            samples_view(v@),
            samples_view(o@),
            |sample: V, x: V| call_ensures(V::calculate, (a, sample, w.1), x),
        ),
        w.0 matches InstantVal::Scalar(b) ==> out matches InstantVal::Scalar(x) && call_ensures(
            V::calculate,
            (a, b, w.1),
            x,
        ),
{
    let rhs = Box::new(PromExpr::Number(bits));
    let (l, r) = instant_operands_keep_their_sides(op, lhs, rhs, modifier, leaves, out, a);
    (l, r->Scalar_0)
}

/// At an instant `k - vector` is the difference of `k` and each sample, and `vector - k`
/// that of each sample and `k`, where the operations are exact.
pub proof fn differences_are_taken_from_the_left<V: Number>(
    val: spec_fn(V) -> real,
    op: String,
    bits: u64,
    e: Box<PromExpr>,
    modifier: Option<BinaryModifier>,
    leaves: Seq<LeafVal<V>>,
    out: InstantVal<V>,
) -> (w: (V, InstantVal<V>))
    requires
        exact(val),
        op@ == "-"@,
        instant_value(
            PromExpr::Binary { op, lhs: Box::new(PromExpr::Number(bits)), rhs: e, modifier },
            leaves,
            out,
        ),
    ensures
        call_ensures(V::of_bits, (bits,), w.0),
        instant_value(*e, leaves, w.1),
        w.1 matches InstantVal::Vector(v) ==> out matches InstantVal::Vector(o) && o@.len()
            == v@.len() && forall|i: int|
            0 <= i < v@.len() ==> val((#[trigger] o@[i]).1) == val(w.0) - val(v@[i].1),
{
    let w = a_number_on_the_left_stays_left(op, bits, e, modifier, leaves, out, Arithmetic::Sub);
    if let InstantVal::Vector(v) = w.1 {
        let o = out->Vector_0;
        assert forall|i: int| 0 <= i < v@.len() implies val((#[trigger] o@[i]).1) == val(w.0)
            - val(v@[i].1) by {
            let (a, b) = (samples_view(v@)[i], samples_view(o@)[i]);
            assert(gives(Arithmetic::Sub, w.0, a.1, b.1));
            assert(calculated(Arithmetic::Sub, w.0, a.1, b.1));
        }
    }
    w
}

/// Whether `o` holds a value for each of the points, at its time.
pub open spec fn each_point<V>(
    points: Seq<Point<V>>,
    o: Seq<Point<V>>,
    value: spec_fn(V, V) -> bool,
) -> bool {
    o.len() == points.len() && forall|i: int|
        0 <= i < points.len() ==> (#[trigger] o[i]).0 == points[i].0 && value(points[i].1, o[i].1)
}

/// Whether `o` holds the series of `v` that have points, without the metric name, with a
/// value for each of their points. Of series that share their other labels it is the last.
pub open spec fn each_series<V>(
    v: Seq<SeriesView<V>>,
    o: Map<Seq<char>, SeriesView<V>>,
    value: spec_fn(V, V) -> bool,
) -> bool {
    &&& forall|key: Seq<char>| #[trigger]
        o.dom().contains(key) ==> exists|i: int|
            #![trigger v[i]]
            {
                &&& 0 <= i < v.len()
                &&& key == rendered(v[i].labels.remove("__name__"@))
                &&& o[key].labels == v[i].labels.remove("__name__"@)
                &&& each_point(v[i].points, o[key].points, value)
                &&& forall|j: int|
                    i < j < v.len() && rendered((#[trigger] v[j]).labels.remove("__name__"@)) == key
                        ==> v[j].points.len() == 0
            }
    &&& forall|i: int|
        0 <= i < v.len() && (#[trigger] v[i]).points.len() > 0 ==> o.dom().contains(
            rendered(v[i].labels.remove("__name__"@)),
        )
}

/// What arithmetic between range values gives, where one of them is a scalar: for each
/// point of each series the operator applied to the scalar and the point's value, with the
/// left operand on the left.
pub open spec fn range_arithmetic<V: Number>(
    a: Arithmetic,
    l: RangeVal<V>,
    r: RangeVal<V>,
    out: RangeVal<V>,
) -> bool {
    match (l, r) {
        (RangeVal::Scalar(x), RangeVal::Scalar(y)) => out matches RangeVal::Scalar(z) && gives(
            a,
            x,
            y,
            z,
        ),
        (RangeVal::Scalar(k), RangeVal::Vector(v)) => out matches RangeVal::Vector(o)
            && each_series(
            series_list(v.listing()),
            series_view(o@),
            |point: V, x: V| gives(a, k, point, x),
        ),
        (RangeVal::Vector(v), RangeVal::Scalar(k)) => out matches RangeVal::Vector(o)
            && each_series(
            series_list(v.listing()),
            series_view(o@),
            |point: V, x: V| gives(a, point, k, x),
        ),
        (RangeVal::Vector(_), RangeVal::Vector(_)) => true,
    }
}

proof fn gathered_from<V>(parts: Seq<SeriesView<V>>, key: Seq<char>) -> (i: int)
    requires
        gathered(parts).dom().contains(key),
    ensures
        0 <= i < parts.len(),
        parts[i].points.len() > 0,
        key == rendered(parts[i].labels),
        gathered(parts)[key] == parts[i],
        forall|j: int|
            i < j < parts.len() && rendered((#[trigger] parts[j]).labels) == key
                ==> parts[j].points.len() == 0,
    decreases parts.len(),
{
    let last = parts.len() - 1;
    if parts.last().points.len() > 0 && rendered(parts.last().labels) == key {
        last
    } else {
        let i = gathered_from(parts.drop_last(), key);
        assert(parts.drop_last()[i] == parts[i]);
        assert forall|j: int|
            i < j < parts.len() && rendered((#[trigger] parts[j]).labels) == key implies parts[j].points.len()
            == 0 by {
            if j < last {
                assert(parts.drop_last()[j] == parts[j]);
            }
        }
        i
    }
}

proof fn gathered_has<V>(parts: Seq<SeriesView<V>>, i: int)
    requires
        0 <= i < parts.len(),
        parts[i].points.len() > 0,
    ensures
        gathered(parts).dom().contains(rendered(parts[i].labels)),
    decreases parts.len(),
{
    if i < parts.len() - 1 {
        assert(parts.drop_last()[i] == parts[i]);
        gathered_has(parts.drop_last(), i);
    }
}

proof fn all_have_results<V>(points: Seq<Point<V>>, results: Seq<Option<V>>)
    requires
        results.len() == points.len(),
        forall|i: int| 0 <= i < results.len() ==> (#[trigger] results[i]) is Some,
    ensures
        with_results(points, results).len() == points.len(),
        forall|i: int|
            0 <= i < points.len() ==> (#[trigger] with_results(points, results)[i]) == (
                points[i].0,
                results[i]->0,
            ),
    decreases points.len(),
{
    if points.len() > 0 {
        assert(results.last() == results[results.len() - 1]);
        assert forall|i: int| 0 <= i < results.drop_last().len() implies (
        #[trigger] results.drop_last()[i]) is Some by {
            assert(results[i] is Some);
        }
        all_have_results(points.drop_last(), results.drop_last());
    }
}

proof fn series_with_a_scalar<V: Number>(
    a: Arithmetic,
    k: V,
    left: bool,
    rb: bool,
    v: Seq<SeriesView<V>>,
    o: Map<Seq<char>, SeriesView<V>>,
    value: spec_fn(V, V) -> bool,
)
    requires
        scalar_vector(BinaryOp::Arithmetic(a), k, left, rb, v, o),
        forall|p: V, x: V| #[trigger] gives(a, k, p, x) && left ==> value(p, x),
        forall|p: V, x: V| #[trigger] gives(a, p, k, x) && !left ==> value(p, x),
    ensures
        each_series(v, o, value),
{
    let op = BinaryOp::Arithmetic(a);
    let parts = choose|parts: Seq<SeriesView<V>>| #[trigger]
        scalar_parts(op, k, left, rb, v, parts) && o == gathered(parts);
    assert forall|i: int| 0 <= i < v.len() implies (#[trigger] parts[i]).labels
        == v[i].labels.remove("__name__"@) && each_point(v[i].points, parts[i].points, value) by {
        let points = v[i].points;
        let results = choose|results: Seq<Option<V>>| #[trigger]
            scalar_results(op, k, left, rb, points, results) && parts[i].points == with_results(
                points,
                results,
            );
        assert forall|j: int| 0 <= j < results.len() implies (#[trigger] results[j]) is Some && value(
            points[j].1,
            results[j]->0,
        ) by {
            if left {
                assert(gives(a, k, points[j].1, results[j]->0));
            } else {
                assert(gives(a, points[j].1, k, results[j]->0));
            }
        }
        all_have_results(points, results);
        assert forall|j: int| 0 <= j < points.len() implies (#[trigger] parts[i].points[j]).0
            == points[j].0 && value(points[j].1, parts[i].points[j].1) by {
            assert(results[j] is Some);
        }
    }
    assert forall|key: Seq<char>| #[trigger] o.dom().contains(key) implies exists|i: int|
        #![trigger v[i]]
        {
            &&& 0 <= i < v.len()
            &&& key == rendered(v[i].labels.remove("__name__"@))
            &&& o[key].labels == v[i].labels.remove("__name__"@)
            &&& each_point(v[i].points, o[key].points, value)
            &&& forall|j: int|
                i < j < v.len() && rendered((#[trigger] v[j]).labels.remove("__name__"@)) == key
                    ==> v[j].points.len() == 0
        } by {
        let i = gathered_from(parts, key);
        assert(parts[i].labels == v[i].labels.remove("__name__"@));
        assert forall|j: int|
            i < j < v.len() && rendered((#[trigger] v[j]).labels.remove("__name__"@)) == key implies v[j].points.len()
            == 0 by {
            assert(parts[j].points.len() == v[j].points.len());
        }
    }
    assert forall|i: int| 0 <= i < v.len() && (#[trigger] v[i]).points.len() > 0 implies o.dom().contains(
        rendered(v[i].labels.remove("__name__"@)),
    ) by {
        assert(parts[i].points.len() == v[i].points.len());
        gathered_has(parts, i);
    }
}

/// The value of an arithmetic expression over a range is that of its operator between the
/// values of its operands, the left one on the left. Returns these two values.
pub proof fn range_operands_keep_their_sides<V: Number>(
    op: String,
    lhs: Box<PromExpr>,
    rhs: Box<PromExpr>,
    modifier: Option<BinaryModifier>,
    win: RangeWindow,
    step: i64,
    leaves: Seq<LeafVal<V>>,
    out: RangeVal<V>,
    a: Arithmetic,
) -> (w: (RangeVal<V>, RangeVal<V>))
    requires
        is_arithmetic(op@, a),
        range_value(PromExpr::Binary { op, lhs, rhs, modifier }, win, step, leaves, out),
    ensures
        range_value(*lhs, win, step, leaves, w.0),
        range_value(*rhs, win, step, leaves.skip(range_count(*lhs) as int), w.1),
        range_arithmetic(a, w.0, w.1, out),
{
    arithmetic_is_read(op@, a);
    let (l, r) = choose|l: RangeVal<V>, r: RangeVal<V>|
        range_value(*lhs, win, step, leaves, l) && range_value(
            *rhs,
            win,
            step,
            leaves.skip(range_count(*lhs) as int),
            r,
        ) && #[trigger] ranges_combined(op_of(op@), l, r, modifier, out);
    let rb = bool_of(modifier);
    match (l, r) {
        (RangeVal::Scalar(k), RangeVal::Vector(v)) => {
            series_with_a_scalar(
                a,
                k,
                true,
                rb,
                series_list(v.listing()),
                series_view(out->Vector_0@),
                |point: V, x: V| gives(a, k, point, x),
            );
        },
        (RangeVal::Vector(v), RangeVal::Scalar(k)) => {
            series_with_a_scalar(
                a,
                k,
                false,
                rb,
                series_list(v.listing()),
                series_view(out->Vector_0@),
                |point: V, x: V| gives(a, point, k, x),
            );
        },
        _ => {},
    }
    (l, r)
}

/// `k op vector` over a range is, at each point of each series of the vector, what the
/// operator gives for `k` on the left and the point on the right. Returns `k` and the
/// vector.
pub proof fn a_number_on_the_left_of_a_range_stays_left<V: Number>(
    op: String,
    bits: u64,
    rhs: Box<PromExpr>,
    modifier: Option<BinaryModifier>,
    win: RangeWindow,
    step: i64,
    leaves: Seq<LeafVal<V>>,
    out: RangeVal<V>,
    a: Arithmetic,
) -> (w: (V, RangeVal<V>))
    requires
        is_arithmetic(op@, a),
        range_value(
            PromExpr::Binary { op, lhs: Box::new(PromExpr::Number(bits)), rhs, modifier },
            win,
            step,
            leaves,
            out,
        ),
    ensures
        call_ensures(V::of_bits, (bits,), w.0),
        range_value(*rhs, win, step, leaves, w.1),
        w.1 matches RangeVal::Vector(v) ==> out matches RangeVal::Vector(o) && each_series(
            series_list(v.listing()),
            series_view(o@),
            |point: V, x: V| call_ensures(V::calculate, (a, w.0, point), x),
        ),
{
    let lhs = Box::new(PromExpr::Number(bits));
    assert(leaves.skip(0) =~= leaves);
    let (l, r) = range_operands_keep_their_sides(op, lhs, rhs, modifier, win, step, leaves, out, a);
    (l->Scalar_0, r)
}

/// `vector op k` over a range is, at each point of each series of the vector, what the
/// operator gives for the point on the left and `k` on the right. Returns the vector and
/// `k`.
pub proof fn a_number_on_the_right_of_a_range_stays_right<V: Number>(
    op: String,
    lhs: Box<PromExpr>,
    bits: u64,
    modifier: Option<BinaryModifier>,
    win: RangeWindow,
    step: i64,
    leaves: Seq<LeafVal<V>>,
    out: RangeVal<V>,
    a: Arithmetic,
) -> (w: (RangeVal<V>, V))
    requires
        is_arithmetic(op@, a),
        range_value(
            PromExpr::Binary { op, lhs, rhs: Box::new(PromExpr::Number(bits)), modifier },
            win,
            step,
            leaves,
            out,
        ),
    ensures
        range_value(*lhs, win, step, leaves, w.0),
        call_ensures(V::of_bits, (bits,), w.1),
        w.0 matches RangeVal::Vector(v) ==> out matches RangeVal::Vector(o) && each_series(
            series_list(v.listing()),
            series_view(o@),
            |point: V, x: V| call_ensures(V::calculate, (a, point, w.1), x),
        ),
{
    let rhs = Box::new(PromExpr::Number(bits));
    let (l, r) = range_operands_keep_their_sides(op, lhs, rhs, modifier, win, step, leaves, out, a);
    (l, r->Scalar_0)
}

/// Whether `at` lists places below `n`, in ascending order.
pub open spec fn are_places(at: Seq<int>, n: nat) -> bool {
    &&& forall|j: int| 0 <= j < at.len() ==> 0 <= #[trigger] at[j] < n
    &&& forall|i: int, j: int| 0 <= i < j < at.len() ==> #[trigger] at[i] < #[trigger] at[j]
}

/// Whether `o` holds those samples of `v`, in their order, without the metric name and with
/// their own value, for which a comparison holds. `at` lists their places.
pub open spec fn filtered<V>(
    v: Seq<(LabelMap, V)>,
    o: Seq<(LabelMap, V)>,
    at: Seq<int>,
    says: spec_fn(V, bool) -> bool,
) -> bool {
    &&& are_places(at, v.len())
    &&& o.len() == at.len()
    &&& forall|j: int|
        0 <= j < at.len() ==> (#[trigger] o[j]).0 == v[at[j]].0.remove("__name__"@) && o[j].1
            == v[at[j]].1 && says(v[at[j]].1, true)
    &&& forall|i: int|
        0 <= i < v.len() && !at.contains(i) ==> says((#[trigger] v[i]).1, false)
}

/// Whether `x` is one where `t` holds, and zero where it does not.
pub open spec fn is_flag<V: Number>(t: bool, x: V) -> bool {
    call_ensures(V::of_count, (if t {
        1u64
    } else {
        0u64
    },), x)
}

/// Whether `x` is one where the comparison holds, and zero where it does not.
pub open spec fn flags<V: Number>(c: Comparison, left: V, right: V, x: V) -> bool {
    exists|t: bool| #[trigger] says(c, left, right, t) && is_flag(t, x)
}

/// Whether a modifier asks for one or zero in place of a filter.
pub open spec fn asks_for_flags(modifier: Option<BinaryModifier>) -> bool {
    modifier is Some && modifier->0.return_bool
}

/// What a comparison between instant values gives, where one of them is a scalar: between
/// scalars, and with `bool`, one or zero; else the samples for which it holds, with their
/// values. `at` lists their places.
pub open spec fn instant_comparison<V: Number>(
    c: Comparison,
    l: InstantVal<V>,
    r: InstantVal<V>,
    modifier: Option<BinaryModifier>,
    out: InstantVal<V>,
    at: Seq<int>,
) -> bool {
    match (l, r) {
        (InstantVal::Scalar(x), InstantVal::Scalar(y)) => out matches InstantVal::Scalar(z)
            && flags(c, x, y, z),
        (InstantVal::Scalar(k), InstantVal::Vector(v)) => out matches InstantVal::Vector(o)
            && if asks_for_flags(modifier) {
            each_sample(
                samples_view(v@),
                samples_view(o@),
                |sample: V, x: V| flags(c, k, sample, x),
            )
        } else {
            filtered(
                samples_view(v@),
                samples_view(o@),
                at,
                |sample: V, t: bool| says(c, k, sample, t),
            )
        },
        (InstantVal::Vector(v), InstantVal::Scalar(k)) => out matches InstantVal::Vector(o)
            && if asks_for_flags(modifier) {
            each_sample(
                samples_view(v@),
                samples_view(o@),
                |sample: V, x: V| flags(c, sample, k, x),
            )
        } else {
            filtered(
                samples_view(v@),
                samples_view(o@),
                at,
                |sample: V, t: bool| says(c, sample, k, t),
            )
        },
        (InstantVal::Vector(_), InstantVal::Vector(_)) => true,
    }
}

/// The places of the parts that are there. Returns them.
pub proof fn places_of_present<T>(parts: Seq<Option<T>>) -> (at: Seq<int>)
    ensures
        are_places(at, parts.len()),
        present(parts).len() == at.len(),
        forall|j: int|
            0 <= j < at.len() ==> parts[at[j]] == Some(#[trigger] present(parts)[j]),
        forall|i: int|
            0 <= i < parts.len() && !at.contains(i) ==> (#[trigger] parts[i]) is None,
    decreases parts.len(),
{
    if parts.len() == 0 {
        Seq::empty()
    } else {
        let n = parts.len() - 1;
        let rest = parts.drop_last();
        let before = places_of_present(rest);
        assert forall|j: int| 0 <= j < before.len() implies parts[#[trigger] before[j]]
            == rest[before[j]] by {}
        if parts.last() is Some {
            let at = before.push(n);
            assert forall|i: int| 0 <= i < parts.len() && !at.contains(i) implies (
            #[trigger] parts[i]) is None by {
                assert(at[before.len() as int] == n);
                if i < n {
                    assert(!before.contains(i)) by {
                        if before.contains(i) {
                            let j = choose|j: int| 0 <= j < before.len() && before[j] == i;
                            assert(at[j] == i);
                        }
                    }
                    assert(rest[i] is None);
                }
            }
            assert forall|j: int| 0 <= j < at.len() implies parts[at[j]] == Some(
                #[trigger] present(parts)[j],
            ) by {
                if j < before.len() {
                    assert(present(parts)[j] == present(rest)[j]);
                    assert(at[j] == before[j]);
                }
            }
            at
        } else {
            assert forall|i: int| 0 <= i < parts.len() && !before.contains(i) implies (
            #[trigger] parts[i]) is None by {
                if i < n {
                    assert(rest[i] is None);
                }
            }
            before
        }
    }
}

proof fn comparison_with_a_scalar<V: Number>(
    c: Comparison,
    k: V,
    left: bool,
    rb: bool,
    v: Seq<(LabelMap, V)>,
    o: Seq<(LabelMap, V)>,
) -> (at: Seq<int>)
    requires
        scalar_instant(BinaryOp::Comparison(c), k, left, rb, v, o),
    ensures
        rb && left ==> each_sample(v, o, |sample: V, x: V| flags(c, k, sample, x)),
        rb && !left ==> each_sample(v, o, |sample: V, x: V| flags(c, sample, k, x)),
        !rb && left ==> filtered(v, o, at, |sample: V, t: bool| says(c, k, sample, t)),
        !rb && !left ==> filtered(v, o, at, |sample: V, t: bool| says(c, sample, k, t)),
{
    let op = BinaryOp::Comparison(c);
    let parts = choose|parts: Seq<Option<(LabelMap, V)>>| #[trigger]
        scalar_samples(op, k, left, rb, v, parts) && o == present(parts);
    if rb {
        assert forall|i: int| 0 <= i < parts.len() implies (#[trigger] parts[i]) is Some by {}
        all_are_present(parts);
        assert forall|i: int| 0 <= i < v.len() implies (#[trigger] o[i]).0 == v[i].0.remove(
            "__name__"@,
        ) && if left {
            flags(c, k, v[i].1, o[i].1)
        } else {
            flags(c, v[i].1, k, o[i].1)
        } by {
            assert(parts[i] is Some);
            let (x, y) = if left {
                (k, v[i].1)
            } else {
                (v[i].1, k)
            };
            let t = choose|t: bool| #[trigger]
                compared(c, x, y, t) && counted(
                    if t {
                        1u64
                    } else {
                        0u64
                    },
                    o[i].1,
                );
            assert(is_flag(t, o[i].1));
            if left {
                assert(says(c, k, v[i].1, t));
            } else {
                assert(says(c, v[i].1, k, t));
            }
        }
        Seq::empty()
    } else {
        let at = places_of_present(parts);
        assert forall|j: int| 0 <= j < at.len() implies (#[trigger] o[j]).0 == v[at[j]].0.remove(
            "__name__"@,
        ) && o[j].1 == v[at[j]].1 && if left {
            says(c, k, v[at[j]].1, true)
        } else {
            says(c, v[at[j]].1, k, true)
        } by {
            assert(parts[at[j]] == Some(present(parts)[j]));
            assert(scalar_sample(op, k, left, rb, v[at[j]], parts[at[j]]));
        }
        assert forall|i: int| 0 <= i < v.len() && !at.contains(i) implies if left {
            says(c, k, (#[trigger] v[i]).1, false)
        } else {
            says(c, v[i].1, k, false)
        } by {
            assert(parts[i] is None);
        }
        at
    }
}

/// The value of a comparison at an instant is that between the values of its operands, the
/// left one on the left. Returns these two values, and the places of the samples that are
/// kept.
pub proof fn instant_comparisons_filter<V: Number>(
    op: String,
    lhs: Box<PromExpr>,
    rhs: Box<PromExpr>,
    modifier: Option<BinaryModifier>,
    leaves: Seq<LeafVal<V>>,
    out: InstantVal<V>,
    c: Comparison,
) -> (w: (InstantVal<V>, InstantVal<V>, Seq<int>))
    requires
        is_comparison(op@, c),
        instant_value(PromExpr::Binary { op, lhs, rhs, modifier }, leaves, out),
    ensures
        instant_value(*lhs, leaves, w.0),
        instant_value(*rhs, leaves.skip(instant_count(*lhs) as int), w.1),
        instant_comparison(c, w.0, w.1, modifier, out, w.2),
{
    comparison_is_read(op@, c);
    let (l, r) = choose|l: InstantVal<V>, r: InstantVal<V>|
        instant_value(*lhs, leaves, l) && instant_value(
            *rhs,
            leaves.skip(instant_count(*lhs) as int),
            r,
        ) && #[trigger] instant_values_combined(op_of(op@), l, r, modifier, out);
    let rb = bool_of(modifier);
    match (l, r) {
        (InstantVal::Scalar(x), InstantVal::Scalar(y)) => {
            let z = out->Scalar_0;
            let t = choose|t: bool| #[trigger]
                compared(c, x, y, t) && counted(
                    if t {
                        1u64
                    } else {
                        0u64
                    },
                    z,
                );
            assert(says(c, x, y, t) && is_flag(t, z));
            (l, r, Seq::empty())
        },
        (InstantVal::Scalar(k), InstantVal::Vector(v)) => {
            let at = comparison_with_a_scalar(
                c,
                k,
                true,
                rb,
                samples_view(v@),
                samples_view(out->Vector_0@),
            );
            (l, r, at)
        },
        (InstantVal::Vector(v), InstantVal::Scalar(k)) => {
            let at = comparison_with_a_scalar(
                c,
                k,
                false,
                rb,
                samples_view(v@),
                samples_view(out->Vector_0@),
            );
            (l, r, at)
        },
        _ => (l, r, Seq::empty()),
    }
}

/// Whether a list of labels holds a label.
pub open spec fn names(l: Seq<String>, k: Seq<char>) -> bool {
    exists|i: int| 0 <= i < l.len() && (#[trigger] l[i])@ == k
}

/// Whether a label takes part in matching: with `on` those that it lists, with `ignoring`
/// all but those that it lists and the metric name, and without either all but the metric
/// name.
pub open spec fn takes_part(modifier: Option<BinaryModifier>, k: Seq<char>) -> bool {
    if modifier is None || modifier->0.matching is None {
        k != "__name__"@
    } else {
        match modifier->0.matching->0 {
            Grouping::Include(l) => names(l@, k),
            Grouping::Exclude(l) => k != "__name__"@ && !names(l@, k),
        }
    }
}

/// Whether `group_left` or `group_right` copies a label from the "one" side.
pub open spec fn is_copied(modifier: Option<BinaryModifier>, k: Seq<char>) -> bool {
    modifier is Some && match modifier->0.card {
        Cardinality::ManyToOne(l) => names(l@, k),
        Cardinality::OneToMany(l) => names(l@, k),
        _ => false,
    }
}

/// Whether the right operand is the "many" side.
pub open spec fn right_is_many(modifier: Option<BinaryModifier>) -> bool {
    modifier is Some && modifier->0.card is OneToMany
}

/// Whether two label sets agree in the labels that take part.
pub open spec fn agree(modifier: Option<BinaryModifier>, a: LabelMap, b: LabelMap) -> bool {
    forall|k: Seq<char>| #[trigger]
        takes_part(modifier, k) ==> a.dom().contains(k) == b.dom().contains(k) && (
        a.dom().contains(k) ==> a[k] == b[k])
}

/// Whether `p` is the first of the label sets that agrees with one; the number of them
/// where none does.
pub open spec fn is_first_match(
    modifier: Option<BinaryModifier>,
    m: LabelMap,
    one: Seq<LabelMap>,
    p: int,
) -> bool {
    &&& 0 <= p <= one.len()
    &&& p < one.len() ==> agree(modifier, one[p], m)
    &&& forall|q: int| 0 <= q < p ==> !agree(modifier, #[trigger] one[q], m)
}

/// Whether `x` holds the labels of a matched pair: those of the "many" side that take part,
/// and those that are copied from the "one" side.
pub open spec fn has_pair_labels(
    modifier: Option<BinaryModifier>,
    many: LabelMap,
    one: LabelMap,
    x: LabelMap,
) -> bool {
    forall|k: Seq<char>|
        #![trigger x.dom().contains(k)]
        if is_copied(modifier, k) && one.dom().contains(k) {
            x.dom().contains(k) && x[k] == one[k]
        } else {
            x.dom().contains(k) == (many.dom().contains(k) && takes_part(modifier, k)) && (
            x.dom().contains(k) ==> x[k] == many[k])
        }
}

proof fn rule_of_matching(modifier: Option<BinaryModifier>, k: Seq<char>)
    ensures
        kind_of(modifier).takes(k) == takes_part(modifier, k),
        card_of(modifier) is Some ==> among(card_of(modifier)->0.extra, k) == is_copied(
            modifier,
            k,
        ),
        card_of(modifier) is Some ==> card_of(modifier)->0.group_right == right_is_many(modifier),
{
    if let Some(b) = modifier {
        if let Some(g) = b.matching {
            match g {
                Grouping::Include(l) => listed_is_among(l@, k),
                Grouping::Exclude(l) => listed_is_among(l@, k),
            }
        }
        match b.card {
            Cardinality::ManyToOne(l) => listed_is_among(l@, k),
            Cardinality::OneToMany(l) => listed_is_among(l@, k),
            _ => {},
        }
    }
}

proof fn agreement_is_matching(modifier: Option<BinaryModifier>, a: LabelMap, b: LabelMap)
    ensures
        agree(modifier, a, b) == (kept_labels(kind_of(modifier), a) == kept_labels(
            kind_of(modifier),
            b,
        )),
{
    let x = kept_labels(kind_of(modifier), a);
    let y = kept_labels(kind_of(modifier), b);
    if agree(modifier, a, b) {
        assert forall|k: Seq<char>| #[trigger] x.dom().contains(k) == y.dom().contains(k) by {
            rule_of_matching(modifier, k);
        }
        assert forall|k: Seq<char>| x.dom().contains(k) implies #[trigger] x[k] == y[k] by {
            rule_of_matching(modifier, k);
        }
        assert(x.dom() =~= y.dom());
        assert(x =~= y);
    }
    if x == y {
        assert forall|k: Seq<char>| #[trigger] takes_part(modifier, k) implies a.dom().contains(k)
            == b.dom().contains(k) && (a.dom().contains(k) ==> a[k] == b[k]) by {
            rule_of_matching(modifier, k);
            assert(x.dom().contains(k) == a.dom().contains(k));
            assert(y.dom().contains(k) == b.dom().contains(k));
            if a.dom().contains(k) {
                assert(x[k] == a[k] && y[k] == b[k]);
            }
        }
    }
}

proof fn partner_is_the_first_match(
    modifier: Option<BinaryModifier>,
    m: LabelMap,
    one: Seq<LabelMap>,
    i: int,
)
    requires
        0 <= i <= one.len(),
        forall|q: int| 0 <= q < i ==> !agree(modifier, #[trigger] one[q], m),
    ensures
        is_first_match(modifier, m, one, partner_from(kind_of(modifier), m, one, i)),
    decreases one.len() - i,
{
    if i < one.len() {
        agreement_is_matching(modifier, one[i], m);
        if !agree(modifier, one[i], m) {
            partner_is_the_first_match(modifier, m, one, i + 1);
        }
    }
}

proof fn pairs_have_their_labels(
    modifier: Option<BinaryModifier>,
    many: LabelMap,
    one: LabelMap,
)
    requires
        card_of(modifier) is Some,
    ensures
        has_pair_labels(
            modifier,
            many,
            one,
            pair_labels(kind_of(modifier), card_of(modifier)->0.extra, many, one),
        ),
{
    let x = pair_labels(kind_of(modifier), card_of(modifier)->0.extra, many, one);
    assert forall|k: Seq<char>|
        #![trigger x.dom().contains(k)]
        if is_copied(modifier, k) && one.dom().contains(k) {
            x.dom().contains(k) && x[k] == one[k]
        } else {
            x.dom().contains(k) == (many.dom().contains(k) && takes_part(modifier, k)) && (
            x.dom().contains(k) ==> x[k] == many[k])
        } by {
        rule_of_matching(modifier, k);
    }
}

/// The labels of samples.
pub open spec fn labels_in<V>(s: Seq<(LabelMap, V)>) -> Seq<LabelMap> {
    s.map_values(|x: (LabelMap, V)| x.0)
}

/// Whether `o` holds what the samples of the "many" side give with the first sample of the
/// "one" side that agrees with them: `some` is asked of the values of both sides and of the
/// result, and `none` of the values of both sides where there is no result. `at` lists the
/// places of the samples that give one, and `partner` those of their partners.
pub open spec fn paired<V>(
    modifier: Option<BinaryModifier>,
    many: Seq<(LabelMap, V)>,
    one: Seq<(LabelMap, V)>,
    o: Seq<(LabelMap, V)>,
    at: Seq<int>,
    partner: Seq<int>,
    some: spec_fn(V, V, V) -> bool,
    none: spec_fn(V, V) -> bool,
) -> bool {
    let labels = labels_in(one);
    &&& are_places(at, many.len())
    &&& o.len() == at.len()
    &&& partner.len() == many.len()
    &&& forall|i: int|
        0 <= i < many.len() ==> is_first_match(
            modifier,
            (#[trigger] many[i]).0,
            labels,
            partner[i],
        )
    &&& forall|j: int|
        #![trigger at[j]]
        0 <= j < at.len() ==> partner[at[j]] < one.len() && has_pair_labels(
            modifier,
            many[at[j]].0,
            one[partner[at[j]]].0,
            o[j].0,
        ) && some(many[at[j]].1, one[partner[at[j]]].1, o[j].1)
    &&& forall|i: int|
        #![trigger many[i]]
        0 <= i < many.len() && !at.contains(i) ==> partner[i] == one.len() || none(
            many[i].1,
            one[partner[i]].1,
        )
}

proof fn samples_are_paired<V: Number>(
    op: BinaryOp,
    modifier: Option<BinaryModifier>,
    many: Seq<(LabelMap, V)>,
    one: Seq<(LabelMap, V)>,
    o: Seq<(LabelMap, V)>,
    some: spec_fn(V, V, V) -> bool,
    none: spec_fn(V, V) -> bool,
) -> (w: (Seq<int>, Seq<int>))
    requires
        card_of(modifier) is Some,
        matched_instant(op, kind_of(modifier), card_of(modifier)->0, bool_of(modifier), many, one, o),
        forall|m: V, n: V, x: V| #[trigger]
            pair_applied(
                op,
                right_is_many(modifier),
                bool_of(modifier),
                m,
                Some(n),
                Some(x),
            ) ==> some(m, n, x),
        forall|m: V, n: V| #[trigger]
            pair_applied(op, right_is_many(modifier), bool_of(modifier), m, Some(n), None)
                ==> none(m, n),
    ensures
        paired(modifier, many, one, o, w.0, w.1, some, none),
{
    let kind = kind_of(modifier);
    let card = card_of(modifier)->0;
    let rb = bool_of(modifier);
    rule_of_matching(modifier, Seq::empty());
    let labels = labels_in(one);
    assert(labels =~= sample_labels(one));
    let parts = choose|parts: Seq<Option<(LabelMap, V)>>| #[trigger]
        matched_samples(op, kind, card, rb, many, one, parts) && o == present(parts);
    let at = places_of_present(parts);
    let partner = Seq::new(many.len(), |i: int| partner_from(kind, many[i].0, labels, 0));
    assert forall|i: int| 0 <= i < many.len() implies is_first_match(
        modifier,
        (#[trigger] many[i]).0,
        labels,
        partner[i],
    ) by {
        partner_is_the_first_match(modifier, many[i].0, labels, 0);
    }
    assert forall|j: int|
        #![trigger at[j]]
        0 <= j < at.len() implies partner[at[j]] < one.len() && has_pair_labels(
        modifier,
        many[at[j]].0,
        one[partner[at[j]]].0,
        o[j].0,
    ) && some(many[at[j]].1, one[partner[at[j]]].1, o[j].1) by {
        let i = at[j];
        assert(is_first_match(modifier, many[i].0, labels, partner[i]));
        assert(parts[i] == Some(present(parts)[j]));
        assert(matched_sample(op, kind, card, rb, many[i], one, parts[i]));
        pairs_have_their_labels(modifier, many[i].0, one[partner[i]].0);
        assert(pair_applied(
            op,
            right_is_many(modifier),
            rb,
            many[i].1,
            Some(one[partner[i]].1),
            Some(o[j].1),
        ));
    }
    assert forall|i: int|
        #![trigger many[i]]
        0 <= i < many.len() && !at.contains(i) implies partner[i] == one.len() || none(
        many[i].1,
        one[partner[i]].1,
    ) by {
        assert(parts[i] is None);
        assert(matched_sample(op, kind, card, rb, many[i], one, parts[i]));
        assert(is_first_match(modifier, many[i].0, labels, partner[i]));
        if partner[i] < one.len() {
            assert(pair_applied(
                op,
                right_is_many(modifier),
                rb,
                many[i].1,
                Some(one[partner[i]].1),
                None,
            ));
        }
    }
    (at, partner)
}

/// Arithmetic between two instant vectors gives, for each sample of the "many" side (the
/// left operand, but with `group_right` the right one) and the first sample of the other
/// side that agrees with it in the labels that take part, what the operator gives for the
/// value of the left operand on the left and that of the right one on the right. Samples
/// without a partner give nothing. Returns the values of the operands, the places of the
/// samples that give something, and those of the partners.
pub proof fn instant_vectors_are_matched<V: Number>(
    op: String,
    lhs: Box<PromExpr>,
    rhs: Box<PromExpr>,
    modifier: Option<BinaryModifier>,
    leaves: Seq<LeafVal<V>>,
    out: InstantVal<V>,
    a: Arithmetic,
) -> (w: (InstantVal<V>, InstantVal<V>, Seq<int>, Seq<int>))
    requires
        is_arithmetic(op@, a),
        instant_value(PromExpr::Binary { op, lhs, rhs, modifier }, leaves, out),
    ensures
        instant_value(*lhs, leaves, w.0),
        instant_value(*rhs, leaves.skip(instant_count(*lhs) as int), w.1),
        w.0 is Vector && w.1 is Vector ==> out is Vector && ({
            let (l, r, o) = (
                samples_view(w.0->Vector_0@),
                samples_view(w.1->Vector_0@),
                samples_view(out->Vector_0@),
            );
            if right_is_many(modifier) {
                paired(
                    modifier,
                    r,
                    l,
                    o,
                    w.2,
                    w.3,
                    |right: V, left: V, x: V| call_ensures(V::calculate, (a, left, right), x),
                    |right: V, left: V| false,
                )
            } else {
                paired(
                    modifier,
                    l,
                    r,
                    o,
                    w.2,
                    w.3,
                    |left: V, right: V, x: V| call_ensures(V::calculate, (a, left, right), x),
                    |left: V, right: V| false,
                )
            }
        }),
{
    arithmetic_is_read(op@, a);
    let (l, r) = choose|l: InstantVal<V>, r: InstantVal<V>|
        instant_value(*lhs, leaves, l) && instant_value(
            *rhs,
            leaves.skip(instant_count(*lhs) as int),
            r,
        ) && #[trigger] instant_values_combined(op_of(op@), l, r, modifier, out);
    rule_of_matching(modifier, Seq::empty());
    match (l, r) {
        (InstantVal::Vector(x), InstantVal::Vector(y)) => {
            let o = samples_view(out->Vector_0@);
            let (at, partner) = if right_is_many(modifier) {
                samples_are_paired(
                    op_of(op@),
                    modifier,
                    samples_view(y@),
                    samples_view(x@),
                    o,
                    |right: V, left: V, x: V| call_ensures(V::calculate, (a, left, right), x),
                    |right: V, left: V| false,
                )
            } else {
                samples_are_paired(
                    op_of(op@),
                    modifier,
                    samples_view(x@),
                    samples_view(y@),
                    o,
                    |left: V, right: V, x: V| call_ensures(V::calculate, (a, left, right), x),
                    |left: V, right: V| false,
                )
            };
            (l, r, at, partner)
        },
        _ => (l, r, Seq::empty(), Seq::empty()),
    }
}

/// A comparison between two instant vectors without `bool` keeps the value of the left
/// operand where it holds between matched samples, and gives nothing where it does not;
/// with `bool` it gives one or zero. Returns the values of the operands, the places of the
/// samples that give something, and those of the partners.
pub proof fn instant_vectors_are_compared<V: Number>(
    op: String,
    lhs: Box<PromExpr>,
    rhs: Box<PromExpr>,
    modifier: Option<BinaryModifier>,
    leaves: Seq<LeafVal<V>>,
    out: InstantVal<V>,
    c: Comparison,
) -> (w: (InstantVal<V>, InstantVal<V>, Seq<int>, Seq<int>))
    requires
        is_comparison(op@, c),
        instant_value(PromExpr::Binary { op, lhs, rhs, modifier }, leaves, out),
    ensures
        instant_value(*lhs, leaves, w.0),
        instant_value(*rhs, leaves.skip(instant_count(*lhs) as int), w.1),
        w.0 is Vector && w.1 is Vector ==> out is Vector && ({
            let (l, r, o) = (
                samples_view(w.0->Vector_0@),
                samples_view(w.1->Vector_0@),
                samples_view(out->Vector_0@),
            );
            let flagged = asks_for_flags(modifier);
            if right_is_many(modifier) {
                paired(
                    modifier,
                    r,
                    l,
                    o,
                    w.2,
                    w.3,
                    |right: V, left: V, x: V| compares(c, flagged, left, right, Some(x)),
                    |right: V, left: V| compares(c, flagged, left, right, None),
                )
            } else {
                paired(
                    modifier,
                    l,
                    r,
                    o,
                    w.2,
                    w.3,
                    |left: V, right: V, x: V| compares(c, flagged, left, right, Some(x)),
                    |left: V, right: V| compares(c, flagged, left, right, None),
                )
            }
        }),
{
    comparison_is_read(op@, c);
    let (l, r) = choose|l: InstantVal<V>, r: InstantVal<V>|
        instant_value(*lhs, leaves, l) && instant_value(
            *rhs,
            leaves.skip(instant_count(*lhs) as int),
            r,
        ) && #[trigger] instant_values_combined(op_of(op@), l, r, modifier, out);
    rule_of_matching(modifier, Seq::empty());
    let flagged = asks_for_flags(modifier);
    assert forall|x: V, y: V, res: Option<V>| #[trigger]
        applied(BinaryOp::Comparison(c), x, y, flagged, x, res) implies compares(
        c,
        flagged,
        x,
        y,
        res,
    ) by {
        comparisons_compare(c, flagged, x, y, res);
    }
    match (l, r) {
        (InstantVal::Vector(x), InstantVal::Vector(y)) => {
            let o = samples_view(out->Vector_0@);
            let (at, partner) = if right_is_many(modifier) {
                samples_are_paired(
                    op_of(op@),
                    modifier,
                    samples_view(y@),
                    samples_view(x@),
                    o,
                    |right: V, left: V, x: V| compares(c, flagged, left, right, Some(x)),
                    |right: V, left: V| compares(c, flagged, left, right, None),
                )
            } else {
                samples_are_paired(
                    op_of(op@),
                    modifier,
                    samples_view(x@),
                    samples_view(y@),
                    o,
                    |left: V, right: V, x: V| compares(c, flagged, left, right, Some(x)),
                    |left: V, right: V| compares(c, flagged, left, right, None),
                )
            };
            (l, r, at, partner)
        },
        _ => (l, r, Seq::empty(), Seq::empty()),
    }
}

/// What a comparison gives for a left and a right value: one or zero where flags are asked
/// for; else the left value where it holds, and nothing where it does not.
pub open spec fn compares<V: Number>(
    c: Comparison,
    flagged: bool,
    left: V,
    right: V,
    res: Option<V>,
) -> bool {
    if flagged {
        res is Some && flags(c, left, right, res->0)
    } else if res is Some {
        res->0 == left && says(c, left, right, true)
    } else {
        says(c, left, right, false)
    }
}

proof fn comparisons_compare<V: Number>(
    c: Comparison,
    flagged: bool,
    left: V,
    right: V,
    res: Option<V>,
)
    requires
        applied(BinaryOp::Comparison(c), left, right, flagged, left, res),
    ensures
        compares(c, flagged, left, right, res),
{
    let t = choose|t: bool| #[trigger]
        compared(c, left, right, t) && if flagged {
            res matches Some(x) && counted(
                if t {
                    1u64
                } else {
                    0u64
                },
                x,
            )
        } else {
            res == if t {
                Some(left)
            } else {
                None
            }
        };
    assert(says(c, left, right, t));
    if flagged {
        assert(is_flag(t, res->0));
    }
}

/// Whether `o` holds, in their order and at their times, what `some` is asked of for the
/// points at the places `at`; of the others `none` is asked.
pub open spec fn points_give<V>(
    points: Seq<Point<V>>,
    o: Seq<Point<V>>,
    at: Seq<int>,
    some: spec_fn(Point<V>, V) -> bool,
    none: spec_fn(Point<V>) -> bool,
) -> bool {
    &&& are_places(at, points.len())
    &&& o.len() == at.len()
    &&& forall|j: int|
        #![trigger at[j]]
        0 <= j < at.len() ==> o[j].0 == points[at[j]].0 && some(points[at[j]], o[j].1)
    &&& forall|i: int|
        0 <= i < points.len() && !at.contains(i) ==> none(#[trigger] points[i])
}

proof fn places_of_results<V>(points: Seq<Point<V>>, results: Seq<Option<V>>) -> (at: Seq<int>)
    requires
        results.len() == points.len(),
    ensures
        are_places(at, points.len()),
        with_results(points, results).len() == at.len(),
        forall|j: int|
            #![trigger at[j]]
            0 <= j < at.len() ==> results[at[j]] is Some && with_results(points, results)[j] == (
                points[at[j]].0,
                results[at[j]]->0,
            ),
        forall|i: int|
            0 <= i < points.len() && !at.contains(i) ==> (#[trigger] results[i]) is None,
    decreases points.len(),
{
    if points.len() == 0 {
        Seq::empty()
    } else {
        let n = points.len() - 1;
        let (p, r) = (points.drop_last(), results.drop_last());
        let before = places_of_results(p, r);
        assert forall|j: int| 0 <= j < before.len() implies results[#[trigger] before[j]]
            == r[before[j]] && points[before[j]] == p[before[j]] by {}
        if results.last() is Some {
            let at = before.push(n);
            assert forall|i: int| 0 <= i < points.len() && !at.contains(i) implies (
            #[trigger] results[i]) is None by {
                assert(at[before.len() as int] == n);
                if i < n {
                    assert(!before.contains(i)) by {
                        if before.contains(i) {
                            let j = choose|j: int| 0 <= j < before.len() && before[j] == i;
                            assert(at[j] == i);
                        }
                    }
                    assert(r[i] is None);
                }
            }
            assert forall|j: int|
                #![trigger at[j]]
                0 <= j < at.len() implies results[at[j]] is Some && with_results(
                points,
                results,
            )[j] == (points[at[j]].0, results[at[j]]->0) by {
                if j < before.len() {
                    assert(with_results(points, results)[j] == with_results(p, r)[j]);
                    assert(at[j] == before[j]);
                }
            }
            at
        } else {
            assert forall|i: int| 0 <= i < points.len() && !before.contains(i) implies (
            #[trigger] results[i]) is None by {
                if i < n {
                    assert(r[i] is None);
                }
            }
            before
        }
    }
}

/// Whether `o` holds what the series of `v` give, without the metric name, where they give
/// any point: `some` is asked of their points that give a value, and of that, and `none` of
/// those that do not. Of series that share their other labels it is the last.
pub open spec fn series_give<V>(
    v: Seq<SeriesView<V>>,
    o: Map<Seq<char>, SeriesView<V>>,
    some: spec_fn(Point<V>, V) -> bool,
    none: spec_fn(Point<V>) -> bool,
) -> bool {
    &&& forall|key: Seq<char>| #[trigger]
        o.dom().contains(key) ==> exists|i: int, at: Seq<int>|
            {
                &&& 0 <= i < v.len()
                &&& key == rendered(v[i].labels.remove("__name__"@))
                &&& o[key].labels == v[i].labels.remove("__name__"@)
                &&& #[trigger] points_give(v[i].points, o[key].points, at, some, none)
            }
    &&& forall|i: int|
        #![trigger v[i]]
        0 <= i < v.len() ==> o.dom().contains(rendered(v[i].labels.remove("__name__"@))) || forall|
            j: int,
        |
            0 <= j < v[i].points.len() ==> none(#[trigger] v[i].points[j])
}

proof fn series_are_compared<V: Number>(
    c: Comparison,
    k: V,
    left: bool,
    rb: bool,
    v: Seq<SeriesView<V>>,
    o: Map<Seq<char>, SeriesView<V>>,
    some: spec_fn(Point<V>, V) -> bool,
    none: spec_fn(Point<V>) -> bool,
)
    requires
        scalar_vector(BinaryOp::Comparison(c), k, left, rb, v, o),
        forall|p: Point<V>, x: V| #[trigger]
            scalar_applied(BinaryOp::Comparison(c), k, left, rb, p.1, Some(x)) ==> some(p, x),
        forall|p: Point<V>|
            scalar_applied(BinaryOp::Comparison(c), k, left, rb, p.1, None) ==> #[trigger] none(p),
    ensures
        series_give(v, o, some, none),
{
    let op = BinaryOp::Comparison(c);
    let parts = choose|parts: Seq<SeriesView<V>>| #[trigger]
        scalar_parts(op, k, left, rb, v, parts) && o == gathered(parts);
    assert forall|i: int| 0 <= i < v.len() implies (#[trigger] parts[i]).labels
        == v[i].labels.remove("__name__"@) && exists|at: Seq<int>| #[trigger]
        points_give(v[i].points, parts[i].points, at, some, none) by {
        let points = v[i].points;
        let results = choose|results: Seq<Option<V>>| #[trigger]
            scalar_results(op, k, left, rb, points, results) && parts[i].points == with_results(
                points,
                results,
            );
        let at = places_of_results(points, results);
        assert forall|j: int|
            #![trigger at[j]]
            0 <= j < at.len() implies parts[i].points[j].0 == points[at[j]].0 && some(
            points[at[j]],
            parts[i].points[j].1,
        ) by {
            assert(scalar_applied(op, k, left, rb, points[at[j]].1, results[at[j]]));
        }
        assert forall|m: int| 0 <= m < points.len() && !at.contains(m) implies none(
            #[trigger] points[m],
        ) by {
            assert(results[m] is None);
            assert(scalar_applied(op, k, left, rb, points[m].1, results[m]));
        }
        assert(points_give(points, parts[i].points, at, some, none));
    }
    assert forall|key: Seq<char>| #[trigger] o.dom().contains(key) implies exists|
        i: int,
        at: Seq<int>,
    |
        {
            &&& 0 <= i < v.len()
            &&& key == rendered(v[i].labels.remove("__name__"@))
            &&& o[key].labels == v[i].labels.remove("__name__"@)
            &&& #[trigger] points_give(v[i].points, o[key].points, at, some, none)
        } by {
        let i = gathered_from(parts, key);
        assert(parts[i].labels == v[i].labels.remove("__name__"@));
        let at = choose|at: Seq<int>| #[trigger]
            points_give(v[i].points, parts[i].points, at, some, none);
        assert(points_give(v[i].points, o[key].points, at, some, none));
    }
    assert forall|i: int|
        #![trigger v[i]]
        0 <= i < v.len() implies o.dom().contains(rendered(v[i].labels.remove("__name__"@)))
        || forall|j: int| 0 <= j < v[i].points.len() ==> none(#[trigger] v[i].points[j]) by {
        assert(parts[i].labels == v[i].labels.remove("__name__"@));
        let at = choose|at: Seq<int>| #[trigger]
            points_give(v[i].points, parts[i].points, at, some, none);
        if parts[i].points.len() > 0 {
            gathered_has(parts, i);
        } else {
            assert forall|j: int| 0 <= j < v[i].points.len() implies none(
                #[trigger] v[i].points[j],
            ) by {
                assert(!at.contains(j));
            }
        }
    }
}

/// What a comparison between a scalar and a series gives at a point: with `bool` one or
/// zero; else the value of the point where it holds, and nothing where it does not.
pub open spec fn point_compares<V: Number>(
    c: Comparison,
    flagged: bool,
    left: V,
    right: V,
    point: V,
    res: Option<V>,
) -> bool {
    if flagged {
        res is Some && flags(c, left, right, res->0)
    } else if res is Some {
        res->0 == point && says(c, left, right, true)
    } else {
        says(c, left, right, false)
    }
}

proof fn points_compare<V: Number>(
    c: Comparison,
    flagged: bool,
    left: V,
    right: V,
    point: V,
    res: Option<V>,
)
    requires
        applied(BinaryOp::Comparison(c), left, right, flagged, point, res),
    ensures
        point_compares(c, flagged, left, right, point, res),
{
    let t = choose|t: bool| #[trigger]
        compared(c, left, right, t) && if flagged {
            res matches Some(x) && counted(
                if t {
                    1u64
                } else {
                    0u64
                },
                x,
            )
        } else {
            res == if t {
                Some(point)
            } else {
                None
            }
        };
    assert(says(c, left, right, t));
    if flagged {
        assert(is_flag(t, res->0));
    }
}

/// A comparison over a range between a scalar and a vector, the left operand on the left,
/// keeps the points for which it holds, with their values, or gives one or zero with
/// `bool`; a series without any point left is dropped. Returns the values of the operands.
pub proof fn range_comparisons_filter<V: Number>(
    op: String,
    lhs: Box<PromExpr>,
    rhs: Box<PromExpr>,
    modifier: Option<BinaryModifier>,
    win: RangeWindow,
    step: i64,
    leaves: Seq<LeafVal<V>>,
    out: RangeVal<V>,
    c: Comparison,
) -> (w: (RangeVal<V>, RangeVal<V>))
    requires
        is_comparison(op@, c),
        range_value(PromExpr::Binary { op, lhs, rhs, modifier }, win, step, leaves, out),
    ensures
        range_value(*lhs, win, step, leaves, w.0),
        range_value(*rhs, win, step, leaves.skip(range_count(*lhs) as int), w.1),
        ({
            let flagged = asks_for_flags(modifier);
            match w {
                (RangeVal::Scalar(x), RangeVal::Scalar(y)) => out matches RangeVal::Scalar(z)
                    && flags(c, x, y, z),
                (RangeVal::Scalar(k), RangeVal::Vector(v)) => out matches RangeVal::Vector(o)
                    && series_give(
                    series_list(v.listing()),
                    series_view(o@),
                    |p: Point<V>, x: V| point_compares(c, flagged, k, p.1, p.1, Some(x)),
                    |p: Point<V>| point_compares(c, flagged, k, p.1, p.1, None),
                ),
                (RangeVal::Vector(v), RangeVal::Scalar(k)) => out matches RangeVal::Vector(o)
                    && series_give(
                    series_list(v.listing()),
                    series_view(o@),
                    |p: Point<V>, x: V| point_compares(c, flagged, p.1, k, p.1, Some(x)),
                    |p: Point<V>| point_compares(c, flagged, p.1, k, p.1, None),
                ),
                _ => true,
            }
        }),
{
    comparison_is_read(op@, c);
    let (l, r) = choose|l: RangeVal<V>, r: RangeVal<V>|
        range_value(*lhs, win, step, leaves, l) && range_value(
            *rhs,
            win,
            step,
            leaves.skip(range_count(*lhs) as int),
            r,
        ) && #[trigger] ranges_combined(op_of(op@), l, r, modifier, out);
    let rb = bool_of(modifier);
    let flagged = asks_for_flags(modifier);
    assert forall|x: V, y: V, p: V, res: Option<V>| #[trigger]
        applied(BinaryOp::Comparison(c), x, y, flagged, p, res) implies point_compares(
        c,
        flagged,
        x,
        y,
        p,
        res,
    ) by {
        points_compare(c, flagged, x, y, p, res);
    }
    match (l, r) {
        (RangeVal::Scalar(x), RangeVal::Scalar(y)) => {
            points_compare(c, true, x, y, x, Some(out->Scalar_0));
        },
        (RangeVal::Scalar(k), RangeVal::Vector(v)) => {
            series_are_compared(
                c,
                k,
                true,
                rb,
                series_list(v.listing()),
                series_view(out->Vector_0@),
                |p: Point<V>, x: V| point_compares(c, flagged, k, p.1, p.1, Some(x)),
                |p: Point<V>| point_compares(c, flagged, k, p.1, p.1, None),
            );
        },
        (RangeVal::Vector(v), RangeVal::Scalar(k)) => {
            series_are_compared(
                c,
                k,
                false,
                rb,
                series_list(v.listing()),
                series_view(out->Vector_0@),
                |p: Point<V>, x: V| point_compares(c, flagged, p.1, k, p.1, Some(x)),
                |p: Point<V>| point_compares(c, flagged, p.1, k, p.1, None),
            );
        },
        _ => {},
    }
    (l, r)
}

/// Whether `x` is the value of the last of the points at a time.
pub open spec fn is_value_at<V>(points: Seq<Point<V>>, t: i64, x: V) -> bool {
    exists|n: int|
        {
            &&& 0 <= n < points.len()
            &&& (#[trigger] points[n]) == (t, x)
            &&& forall|m: int| n < m < points.len() ==> (#[trigger] points[m]).0 != t
        }
}

/// Whether none of the points is at a time.
pub open spec fn none_at<V>(points: Seq<Point<V>>, t: i64) -> bool {
    forall|m: int| 0 <= m < points.len() ==> (#[trigger] points[m]).0 != t
}

proof fn values_are_last<V>(points: Seq<Point<V>>, t: i64)
    ensures
        value_at(points, t) matches Some(x) ==> is_value_at(points, t, x),
        value_at(points, t) is None ==> none_at(points, t),
    decreases points.len(),
{
    if points.len() > 0 {
        let rest = points.drop_last();
        values_are_last(rest, t);
        let last = points.len() - 1;
        assert(points[last] == points.last());
        if points.last().0 == t {
            assert(points[last] == (t, points.last().1));
        } else if value_at(rest, t) is Some {
            let x = value_at(rest, t)->0;
            let n = choose|n: int|
                {
                    &&& 0 <= n < rest.len()
                    &&& (#[trigger] rest[n]) == (t, x)
                    &&& forall|m: int| n < m < rest.len() ==> (#[trigger] rest[m]).0 != t
                };
            assert(points[n] == (t, x));
            assert forall|m: int| n < m < points.len() implies (#[trigger] points[m]).0 != t by {
                if m < last {
                    assert(rest[m] == points[m]);
                }
            }
        } else {
            assert forall|m: int| 0 <= m < points.len() implies (#[trigger] points[m]).0 != t by {
                if m < last {
                    assert(rest[m] == points[m]);
                }
            }
        }
    }
}

/// The labels of series.
pub open spec fn labels_in_series<V>(s: Seq<SeriesView<V>>) -> Seq<LabelMap> {
    s.map_values(|x: SeriesView<V>| x.labels)
}

/// What a series of the "many" side gives with one of the "one" side: under the labels of
/// the pair, at each time that both have, what `some` is asked of for the values of both
/// sides. At a time of the "many" side at which nothing is given, the "one" side has no
/// point, or `none` is asked of the values of both.
pub open spec fn pair_gives<V>(
    modifier: Option<BinaryModifier>,
    many: SeriesView<V>,
    one: SeriesView<V>,
    o: SeriesView<V>,
    at: Seq<int>,
    some: spec_fn(V, V, V) -> bool,
    none: spec_fn(V, V) -> bool,
) -> bool {
    &&& has_pair_labels(modifier, many.labels, one.labels, o.labels)
    &&& points_give(
        many.points,
        o.points,
        at,
        |p: Point<V>, x: V|
            exists|n: V| #[trigger] is_value_at(one.points, p.0, n) && some(p.1, n, x),
        |p: Point<V>|
            none_at(one.points, p.0) || exists|n: V| #[trigger]
                is_value_at(one.points, p.0, n) && none(p.1, n),
    )
}

/// Whether `o` holds what the series of the "many" side give with the first series of the
/// "one" side that agrees with them, and nothing else.
pub open spec fn series_paired<V>(
    modifier: Option<BinaryModifier>,
    many: Seq<SeriesView<V>>,
    one: Seq<SeriesView<V>>,
    o: Map<Seq<char>, SeriesView<V>>,
    some: spec_fn(V, V, V) -> bool,
    none: spec_fn(V, V) -> bool,
) -> bool {
    &&& forall|key: Seq<char>| #[trigger]
        o.dom().contains(key) ==> key == rendered(o[key].labels) && exists|
            i: int,
            p: int,
            at: Seq<int>,
        |
            {
                &&& 0 <= i < many.len()
                &&& p < one.len()
                &&& is_first_match(modifier, many[i].labels, labels_in_series(one), p)
                &&& #[trigger] pair_gives(modifier, many[i], one[p], o[key], at, some, none)
            }
    &&& forall|i: int, p: int|
        #![trigger many[i], one[p]]
        0 <= i < many.len() && p < one.len() && is_first_match(
            modifier,
            many[i].labels,
            labels_in_series(one),
            p,
        ) ==> exists|part: SeriesView<V>, at: Seq<int>|
            #[trigger] pair_gives(modifier, many[i], one[p], part, at, some, none) && (
            part.points.len() > 0 ==> o.dom().contains(rendered(part.labels)))
}

proof fn first_matches_agree(
    modifier: Option<BinaryModifier>,
    m: LabelMap,
    one: Seq<LabelMap>,
    p: int,
    q: int,
)
    requires
        is_first_match(modifier, m, one, p),
        is_first_match(modifier, m, one, q),
    ensures
        p == q,
{
    if p < q {
        assert(!agree(modifier, one[p], m));
    } else if q < p {
        assert(!agree(modifier, one[q], m));
    }
}

proof fn pair_is_given<V: Number>(
    op: BinaryOp,
    modifier: Option<BinaryModifier>,
    many: SeriesView<V>,
    one: SeriesView<V>,
    part: SeriesView<V>,
    some: spec_fn(V, V, V) -> bool,
    none: spec_fn(V, V) -> bool,
) -> (at: Seq<int>)
    requires
        card_of(modifier) is Some,
        part.labels == pair_labels(
            kind_of(modifier),
            card_of(modifier)->0.extra,
            many.labels,
            one.labels,
        ),
        pair_points_are(
            op,
            right_is_many(modifier),
            bool_of(modifier),
            many.points,
            one.points,
            part.points,
        ),
        forall|m: V, n: V, x: V| #[trigger]
            pair_applied(
                op,
                right_is_many(modifier),
                bool_of(modifier),
                m,
                Some(n),
                Some(x),
            ) ==> some(m, n, x),
        forall|m: V, n: V| #[trigger]
            pair_applied(op, right_is_many(modifier), bool_of(modifier), m, Some(n), None)
                ==> none(m, n),
    ensures
        pair_gives(modifier, many, one, part, at, some, none),
{
    pairs_have_their_labels(modifier, many.labels, one.labels);
    let (gr, rb) = (right_is_many(modifier), bool_of(modifier));
    let results = choose|results: Seq<Option<V>>| #[trigger]
        pair_results(op, gr, rb, many.points, one.points, results) && part.points == with_results(
            many.points,
            results,
        );
    let at = places_of_results(many.points, results);
    let yes = |p: Point<V>, x: V|
        exists|n: V| #[trigger] is_value_at(one.points, p.0, n) && some(p.1, n, x);
    let no = |p: Point<V>|
        none_at(one.points, p.0) || exists|n: V| #[trigger]
            is_value_at(one.points, p.0, n) && none(p.1, n);
    assert forall|j: int|
        #![trigger at[j]]
        0 <= j < at.len() implies part.points[j].0 == many.points[at[j]].0 && yes(
        many.points[at[j]],
        part.points[j].1,
    ) by {
        let m = many.points[at[j]];
        values_are_last(one.points, m.0);
        assert(pair_applied(op, gr, rb, m.1, value_at(one.points, m.0), results[at[j]]));
        let n = value_at(one.points, m.0)->0;
        assert(is_value_at(one.points, m.0, n));
        assert(pair_applied(op, gr, rb, m.1, Some(n), Some(part.points[j].1)));
    }
    assert forall|i: int| 0 <= i < many.points.len() && !at.contains(i) implies no(
        #[trigger] many.points[i],
    ) by {
        let m = many.points[i];
        values_are_last(one.points, m.0);
        assert(results[i] is None);
        assert(pair_applied(op, gr, rb, m.1, value_at(one.points, m.0), results[i]));
        if value_at(one.points, m.0) is Some {
            let n = value_at(one.points, m.0)->0;
            assert(is_value_at(one.points, m.0, n));
            assert(pair_applied(op, gr, rb, m.1, Some(n), None));
        }
    }
    assert(points_give(many.points, part.points, at, yes, no));
    at
}

proof fn series_are_paired<V: Number>(
    op: BinaryOp,
    modifier: Option<BinaryModifier>,
    many: Seq<SeriesView<V>>,
    one: Seq<SeriesView<V>>,
    o: Map<Seq<char>, SeriesView<V>>,
    some: spec_fn(V, V, V) -> bool,
    none: spec_fn(V, V) -> bool,
)
    requires
        card_of(modifier) is Some,
        matched(op, kind_of(modifier), card_of(modifier)->0, bool_of(modifier), many, one, o),
        forall|m: V, n: V, x: V| #[trigger]
            pair_applied(
                op,
                right_is_many(modifier),
                bool_of(modifier),
                m,
                Some(n),
                Some(x),
            ) ==> some(m, n, x),
        forall|m: V, n: V| #[trigger]
            pair_applied(op, right_is_many(modifier), bool_of(modifier), m, Some(n), None)
                ==> none(m, n),
    ensures
        series_paired(modifier, many, one, o, some, none),
{
    let kind = kind_of(modifier);
    let card = card_of(modifier)->0;
    let rb = bool_of(modifier);
    rule_of_matching(modifier, Seq::empty());
    let labels = labels_in_series(one);
    assert(labels =~= labels_of(one));
    let parts = choose|parts: Seq<SeriesView<V>>| #[trigger]
        matched_parts(op, kind, card, rb, many, one, parts) && o == gathered(parts);
    assert forall|key: Seq<char>| #[trigger] o.dom().contains(key) implies key == rendered(
        o[key].labels,
    ) && exists|i: int, p: int, at: Seq<int>|
        {
            &&& 0 <= i < many.len()
            &&& p < one.len()
            &&& is_first_match(modifier, many[i].labels, labels, p)
            &&& #[trigger] pair_gives(modifier, many[i], one[p], o[key], at, some, none)
        } by {
        let i = gathered_from(parts, key);
        let p = partner_from(kind, many[i].labels, labels, 0);
        partner_is_the_first_match(modifier, many[i].labels, labels, 0);
        assert(matched_series(op, kind, card, rb, many[i], one, parts[i]));
        let at = pair_is_given(op, modifier, many[i], one[p], parts[i], some, none);
        assert(pair_gives(modifier, many[i], one[p], o[key], at, some, none));
    }
    assert forall|i: int, p: int|
        #![trigger many[i], one[p]]
        0 <= i < many.len() && p < one.len() && is_first_match(
            modifier,
            many[i].labels,
            labels,
            p,
        ) implies exists|part: SeriesView<V>, at: Seq<int>|
        #[trigger] pair_gives(modifier, many[i], one[p], part, at, some, none) && (
        part.points.len() > 0 ==> o.dom().contains(rendered(part.labels))) by {
        partner_is_the_first_match(modifier, many[i].labels, labels, 0);
        first_matches_agree(
            modifier,
            many[i].labels,
            labels,
            p,
            partner_from(kind, many[i].labels, labels, 0),
        );
        assert(matched_series(op, kind, card, rb, many[i], one, parts[i]));
        let at = pair_is_given(op, modifier, many[i], one[p], parts[i], some, none);
        if parts[i].points.len() > 0 {
            gathered_has(parts, i);
        }
        assert(pair_gives(modifier, many[i], one[p], parts[i], at, some, none));
    }
}

/// Arithmetic between two vectors over a range gives, for each series of the "many" side
/// (the left operand, but with `group_right` the right one) and the first series of the
/// other side that agrees with it, at each time that both have, what the operator gives for
/// the value of the left operand on the left and that of the right one on the right.
/// Returns the values of the operands.
pub proof fn range_vectors_are_matched<V: Number>(
    op: String,
    lhs: Box<PromExpr>,
    rhs: Box<PromExpr>,
    modifier: Option<BinaryModifier>,
    win: RangeWindow,
    step: i64,
    leaves: Seq<LeafVal<V>>,
    out: RangeVal<V>,
    a: Arithmetic,
) -> (w: (RangeVal<V>, RangeVal<V>))
    requires
        is_arithmetic(op@, a),
        range_value(PromExpr::Binary { op, lhs, rhs, modifier }, win, step, leaves, out),
    ensures
        range_value(*lhs, win, step, leaves, w.0),
        range_value(*rhs, win, step, leaves.skip(range_count(*lhs) as int), w.1),
        w.0 is Vector && w.1 is Vector ==> out is Vector && ({
            let (l, r, o) = (
                series_list(w.0->Vector_0.listing()),
                series_list(w.1->Vector_0.listing()),
                series_view(out->Vector_0@),
            );
            if right_is_many(modifier) {
                series_paired(
                    modifier,
                    r,
                    l,
                    o,
                    |right: V, left: V, x: V| call_ensures(V::calculate, (a, left, right), x),
                    |right: V, left: V| false,
                )
            } else {
                series_paired(
                    modifier,
                    l,
                    r,
                    o,
                    |left: V, right: V, x: V| call_ensures(V::calculate, (a, left, right), x),
                    |left: V, right: V| false,
                )
            }
        }),
{
    arithmetic_is_read(op@, a);
    let (l, r) = choose|l: RangeVal<V>, r: RangeVal<V>|
        range_value(*lhs, win, step, leaves, l) && range_value(
            *rhs,
            win,
            step,
            leaves.skip(range_count(*lhs) as int),
            r,
        ) && #[trigger] ranges_combined(op_of(op@), l, r, modifier, out);
    rule_of_matching(modifier, Seq::empty());
    if let (RangeVal::Vector(x), RangeVal::Vector(y)) = (l, r) {
        let o = series_view(out->Vector_0@);
        if right_is_many(modifier) {
            series_are_paired(
                op_of(op@),
                modifier,
                series_list(y.listing()),
                series_list(x.listing()),
                o,
                |right: V, left: V, x: V| call_ensures(V::calculate, (a, left, right), x),
                |right: V, left: V| false,
            );
        } else {
            series_are_paired(
                op_of(op@),
                modifier,
                series_list(x.listing()),
                series_list(y.listing()),
                o,
                |left: V, right: V, x: V| call_ensures(V::calculate, (a, left, right), x),
                |left: V, right: V| false,
            );
        }
    }
    (l, r)
}

/// A comparison between two vectors over a range keeps the value of the left operand at the
/// times at which it holds between matched series, or gives one or zero with `bool`.
/// Returns the values of the operands.
pub proof fn range_vectors_are_compared<V: Number>(
    op: String,
    lhs: Box<PromExpr>,
    rhs: Box<PromExpr>,
    modifier: Option<BinaryModifier>,
    win: RangeWindow,
    step: i64,
    leaves: Seq<LeafVal<V>>,
    out: RangeVal<V>,
    c: Comparison,
) -> (w: (RangeVal<V>, RangeVal<V>))
    requires
        is_comparison(op@, c),
        range_value(PromExpr::Binary { op, lhs, rhs, modifier }, win, step, leaves, out),
    ensures
        range_value(*lhs, win, step, leaves, w.0),
        range_value(*rhs, win, step, leaves.skip(range_count(*lhs) as int), w.1),
        w.0 is Vector && w.1 is Vector ==> out is Vector && ({
            let (l, r, o) = (
                series_list(w.0->Vector_0.listing()),
                series_list(w.1->Vector_0.listing()),
                series_view(out->Vector_0@),
            );
            let flagged = asks_for_flags(modifier);
            if right_is_many(modifier) {
                series_paired(
                    modifier,
                    r,
                    l,
                    o,
                    |right: V, left: V, x: V| compares(c, flagged, left, right, Some(x)),
                    |right: V, left: V| compares(c, flagged, left, right, None),
                )
            } else {
                series_paired(
                    modifier,
                    l,
                    r,
                    o,
                    |left: V, right: V, x: V| compares(c, flagged, left, right, Some(x)),
                    |left: V, right: V| compares(c, flagged, left, right, None),
                )
            }
        }),
{
    comparison_is_read(op@, c);
    let (l, r) = choose|l: RangeVal<V>, r: RangeVal<V>|
        range_value(*lhs, win, step, leaves, l) && range_value(
            *rhs,
            win,
            step,
            leaves.skip(range_count(*lhs) as int),
            r,
        ) && #[trigger] ranges_combined(op_of(op@), l, r, modifier, out);
    rule_of_matching(modifier, Seq::empty());
    let flagged = asks_for_flags(modifier);
    assert forall|x: V, y: V, res: Option<V>| #[trigger]
        applied(BinaryOp::Comparison(c), x, y, flagged, x, res) implies compares(
        c,
        flagged,
        x,
        y,
        res,
    ) by {
        comparisons_compare(c, flagged, x, y, res);
    }
    if let (RangeVal::Vector(x), RangeVal::Vector(y)) = (l, r) {
        let o = series_view(out->Vector_0@);
        if right_is_many(modifier) {
            series_are_paired(
                op_of(op@),
                modifier,
                series_list(y.listing()),
                series_list(x.listing()),
                o,
                |right: V, left: V, x: V| compares(c, flagged, left, right, Some(x)),
                |right: V, left: V| compares(c, flagged, left, right, None),
            );
        } else {
            series_are_paired(
                op_of(op@),
                modifier,
                series_list(x.listing()),
                series_list(y.listing()),
                o,
                |left: V, right: V, x: V| compares(c, flagged, left, right, Some(x)),
                |left: V, right: V| compares(c, flagged, left, right, None),
            );
        }
    }
    (l, r)
}

} // verus!

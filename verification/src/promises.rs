//! Laws of the calls that answer queries.
use crate::binary::{
    a_number_on_the_left_of_a_range_stays_left, a_number_on_the_left_stays_left,
    a_number_on_the_right_of_a_range_stays_right, a_number_on_the_right_stays_right, each_sample,
    each_series, is_arithmetic,
};
use crate::classify::agg_grouping;
use crate::eval::RangeWindow;
use crate::evaluate::{eval_instant, eval_range_window, LeafVal};
use crate::grouping::{grouping_is_read, keeps, ungrouped_aggregations_give_one_series};
use crate::labels::MatchKind;
use crate::metadata::{handle_label_values, handle_labels, is_label_name, is_value};
use crate::number::{Arithmetic, Number};
use crate::operators::histogram_quantile;
use crate::plan::{lower_instant_df, lower_range_df, Partition, Plan, StepView};
use crate::planned::{instant_functions_have_their_steps, range_functions_have_their_steps};
use crate::promql::{BinaryModifier, Grouping, PromExpr, Selector};
use crate::quantile::{exact, falls_into, numbers, quantiles_interpolate, total};
use crate::response::ts_number;
use crate::routes::{loki_query_range, parse_step_ns, parse_time_ns, tempo_limit, LokiRequest};
use crate::series::{
    samples_view, series_list, series_view, InstantVal, RangeVal, SeriesView,
};
use crate::sql::{over_budget_is_unprocessable, scan_guard, sql_error_status};
use crate::text::{listed, precedes, texts};
use crate::traceql::ast::{spanset_view, FieldExprView, FieldOp, FieldView, SpansetExpr, SpansetView};
use crate::traceql::written::{comparison_text, field_text, is_gap, is_writable};
use crate::traceql::{filters_compare_their_fields, ParseError};
use crate::udf::normalized;
use vstd::prelude::*;

verus! {

/// Where the rank falls into a bucket with a bound and a positive count, a call of
/// `histogram_quantile` divides the bucket as the rank divides its count.
pub proof fn histogram_quantile_interpolates<V: Number>(
    val: spec_fn(V) -> real,
    phi: V,
    counts: &Vec<V>,
    bounds: &Vec<V>,
    q: Option<V>,
    i: int,
)
    requires
        exact(val),
        call_ensures(histogram_quantile::<V>, (phi, counts, bounds), q),
        0 <= i < bounds@.len(),
        i < counts@.len(),
        forall|j: int| 0 <= j < counts@.len() ==> val(#[trigger] counts@[j]) >= 0real,
        val(counts@[i]) > 0real,
        0real <= val(phi) <= 1real,
        falls_into(val, phi, counts@, i),
    ensures
        q is Some,
        ({
            let low = if i == 0 {
                0real
            } else {
                val(bounds@[i - 1])
            };
            let rank = val(phi) * total(numbers(val, counts@));
            val(q->0) == low + (val(bounds@[i]) - low) * (rank - total(
                numbers(val, counts@.take(i)),
            )) / val(counts@[i])
        }),
{
    quantiles_interpolate(val, phi, counts@, bounds@, q, i);
}

/// A call of `agg_grouping` gives the rule that takes the labels that the aggregation keeps.
pub proof fn agg_grouping_takes_what_is_kept(g: &Option<Grouping>, r: MatchKind, k: Seq<char>)
    requires
        call_ensures(agg_grouping, (g,), r),
    ensures
        r@.takes(k) == keeps(*g, k),
{
    grouping_is_read(*g, k);
}

/// A call of `eval_instant` on `k op selector` gives, for each sample of the selector, what
/// the operator gives for `k` on the left and the sample on the right; on `selector op k`,
/// the sample on the left. Returns `k`.
pub proof fn eval_instant_keeps_the_sides<V: Number>(
    op: String,
    bits: u64,
    s: Selector,
    modifier: Option<BinaryModifier>,
    number_left: bool,
    leaves: Vec<LeafVal<V>>,
    out: InstantVal<V>,
    a: Arithmetic,
) -> (k: V)
    requires
        is_arithmetic(op@, a),
        leaves@.len() > 0,
        leaves@[0] is Instant,
        ({
            let number = Box::new(PromExpr::Number(bits));
            let vector = Box::new(PromExpr::Vector(s));
            let e = if number_left {
                PromExpr::Binary { op, lhs: number, rhs: vector, modifier }
            } else {
                PromExpr::Binary { op, lhs: vector, rhs: number, modifier }
            };
            call_ensures(
                eval_instant::<V>,
                (&e, leaves),
                Ok::<InstantVal<V>, String>(out),
            )
        }),
    ensures
        call_ensures(V::of_bits, (bits,), k),
        out is Vector,
        each_sample(
            samples_view(leaves@[0]->Instant_0@),
            samples_view(out->Vector_0@),
            |sample: V, x: V|
                if number_left {
                    call_ensures(V::calculate, (a, k, sample), x)
                } else {
                    call_ensures(V::calculate, (a, sample, k), x)
                },
        ),
{
    let number = Box::new(PromExpr::Number(bits));
    let vector = Box::new(PromExpr::Vector(s));
    if number_left {
        let w = a_number_on_the_left_stays_left(op, bits, vector, modifier, leaves@, out, a);
        w.0
    } else {
        let w = a_number_on_the_right_stays_right(op, vector, bits, modifier, leaves@, out, a);
        w.1
    }
}

/// The same of a call of `eval_range_window`, point by point.
pub proof fn eval_range_keeps_the_sides<V: Number>(
    op: String,
    bits: u64,
    s: Selector,
    modifier: Option<BinaryModifier>,
    number_left: bool,
    win: RangeWindow,
    step: i64,
    leaves: Vec<LeafVal<V>>,
    out: RangeVal<V>,
    a: Arithmetic,
) -> (k: V)
    requires
        is_arithmetic(op@, a),
        leaves@.len() > 0,
        leaves@[0] is Range,
        ({
            let number = Box::new(PromExpr::Number(bits));
            let vector = Box::new(PromExpr::Vector(s));
            let e = if number_left {
                PromExpr::Binary { op, lhs: number, rhs: vector, modifier }
            } else {
                PromExpr::Binary { op, lhs: vector, rhs: number, modifier }
            };
            call_ensures(
                eval_range_window::<V>,
                (&e, win, step, leaves),
                Ok::<RangeVal<V>, String>(out),
            )
        }),
    ensures
        call_ensures(V::of_bits, (bits,), k),
        out is Vector,
        each_series(
            series_list(leaves@[0]->Range_0.listing()),
            series_view(out->Vector_0@),
            |point: V, x: V|
                if number_left {
                    call_ensures(V::calculate, (a, k, point), x)
                } else {
                    call_ensures(V::calculate, (a, point, k), x)
                },
        ),
{
    let number = Box::new(PromExpr::Number(bits));
    let vector = Box::new(PromExpr::Vector(s));
    if number_left {
        let w = a_number_on_the_left_of_a_range_stays_left(
            op,
            bits,
            vector,
            modifier,
            win,
            step,
            leaves@,
            out,
            a,
        );
        same_series(
            series_list(leaves@[0]->Range_0.listing()),
            series_view(out->Vector_0@),
            |point: V, x: V| call_ensures(V::calculate, (a, w.0, point), x),
            |point: V, x: V|
                if number_left {
                    call_ensures(V::calculate, (a, w.0, point), x)
                } else {
                    call_ensures(V::calculate, (a, point, w.0), x)
                },
        );
        w.0
    } else {
        let w = a_number_on_the_right_of_a_range_stays_right(
            op,
            vector,
            bits,
            modifier,
            win,
            step,
            leaves@,
            out,
            a,
        );
        same_series(
            series_list(leaves@[0]->Range_0.listing()),
            series_view(out->Vector_0@),
            |point: V, x: V| call_ensures(V::calculate, (a, point, w.1), x),
            |point: V, x: V|
                if number_left {
                    call_ensures(V::calculate, (a, w.1, point), x)
                } else {
                    call_ensures(V::calculate, (a, point, w.1), x)
                },
        );
        w.1
    }
}

proof fn same_series<V>(
    v: Seq<SeriesView<V>>,
    o: Map<Seq<char>, SeriesView<V>>,
    p: spec_fn(V, V) -> bool,
    q: spec_fn(V, V) -> bool,
)
    requires
        each_series(v, o, p),
        forall|a: V, x: V| p(a, x) == #[trigger] q(a, x),
    ensures
        each_series(v, o, q),
{
    assert(p =~= q);
}

/// A call of `lower_range_df` on a function over a range vector of raw samples plans the
/// step of that function, and no other.
pub proof fn lower_range_df_plans_the_function(
    name: String,
    args: Vec<PromExpr>,
    s: Selector,
    range: u128,
    start: i64,
    end: i64,
    table: &str,
    r: Result<Plan, String>,
)
    requires
        args@.len() > 0,
        args@[0] == PromExpr::Matrix(s, range),
        s.name is Some,
        range <= i64::MAX,
        table@ == "metrics"@,
        call_ensures(lower_range_df, (&PromExpr::Call { name, args }, start, end, table), r),
    ensures
        name@ == "increase"@ || name@ == "rate"@ ==> r is Ok && r->Ok_0@.steps == seq![
            StepView::Rate { range_ns: range as i64, per_second: name@ == "rate"@ },
        ],
{
    range_functions_have_their_steps(name, args, s, range, start, end);
    reveal_strlit("rate");
    reveal_strlit("increase");
    assert("rate"@.len() == 4 && "increase"@.len() == 8);
}

/// A call of `lower_instant_df` on one plans that step, and the latest value of each series.
pub proof fn lower_instant_df_plans_the_function(
    tables: &Vec<String>,
    name: String,
    args: Vec<PromExpr>,
    s: Selector,
    range: u128,
    time: i64,
    now: i64,
    r: Result<Plan, String>,
)
    requires
        args@.len() > 0,
        args@[0] == PromExpr::Matrix(s, range),
        s.name is Some,
        range <= i64::MAX,
        call_ensures(lower_instant_df, (tables, &PromExpr::Call { name, args }, time, now), r),
    ensures
        name@ == "increase"@ || name@ == "rate"@ ==> r is Ok && r->Ok_0@.steps == seq![
            StepView::Rate { range_ns: range as i64, per_second: name@ == "rate"@ },
            StepView::Latest(Partition::ServiceSeries),
        ],
{
    instant_functions_have_their_steps(tables@, name, args, s, range, time, now);
    reveal_strlit("rate");
    reveal_strlit("increase");
    assert("rate"@.len() == 4 && "increase"@.len() == 8);
}

/// A call of `eval_range_window` on an aggregation without `by` and `without` of a selector
/// gives one series without labels for all of its series.
pub proof fn eval_range_gives_one_series<V: Number>(
    op: String,
    s: Selector,
    param: Option<Box<PromExpr>>,
    win: RangeWindow,
    step: i64,
    leaves: Vec<LeafVal<V>>,
    out: RangeVal<V>,
)
    requires
        op@ == "sum"@ || op@ == "count"@ || op@ == "avg"@ || op@ == "min"@ || op@ == "max"@,
        leaves@.len() > 0,
        leaves@[0] is Range,
        call_ensures(
            eval_range_window::<V>,
            (
                &PromExpr::Aggregate {
                    op,
                    expr: Box::new(PromExpr::Vector(s)),
                    param,
                    grouping: None,
                },
                win,
                step,
                leaves,
            ),
            Ok::<RangeVal<V>, String>(out),
        ),
    ensures
        out is Vector,
        ({
            let series = series_view(out->Vector_0@);
            &&& forall|key: Seq<char>| #[trigger]
                series.dom().contains(key) ==> series[key].labels == Map::<
                    Seq<char>,
                    Seq<char>,
                >::empty()
            &&& forall|key: Seq<char>, other: Seq<char>| #[trigger]
                series.dom().contains(key) && #[trigger] series.dom().contains(other) ==> key
                    == other
        }),
{
    let v = ungrouped_aggregations_give_one_series(
        op,
        Box::new(PromExpr::Vector(s)),
        param,
        win,
        step,
        leaves@,
        out,
    );
}

/// A call of TraceQL's `parse` on a filter with one comparison reads both of its fields,
/// whatever they are, and the comparison between them.
pub proof fn parse_reads_filters(
    input: &str,
    f: FieldView,
    op: FieldOp,
    g: FieldView,
    gaps: Seq<Seq<char>>,
    r: Result<SpansetExpr, ParseError>,
)
    requires
        is_writable(f),
        is_writable(g),
        gaps.len() == 5,
        forall|k: int| 0 <= k < gaps.len() ==> is_gap(#[trigger] gaps[k]),
        input@ == seq!['{'] + (gaps[0] + (field_text(f) + (gaps[1] + (comparison_text(op) + (gaps[2]
            + (field_text(g) + (gaps[3] + (seq!['}'] + gaps[4])))))))),
        call_ensures(crate::traceql::parse, (input,), r),
    ensures
        r is Ok,
        spanset_view(r->Ok_0) == SpansetView::Filter(
            Some(FieldExprView::Cmp { lhs: f, op, rhs: g }),
        ),
{
    filters_compare_their_fields(f, op, g, gaps);
}

/// An estimate is refused exactly where it exceeds the budget: the budget itself is still
/// within it. A refusal is answered with status 422.
pub proof fn scan_guard_holds_the_budget(
    estimated: u64,
    max: u64,
    r: Result<(), String>,
    message: &str,
    status: u16,
)
    requires
        call_ensures(scan_guard, (estimated, max), r),
        r is Err ==> r->Err_0@ == message@,
        call_ensures(sql_error_status, (message,), status),
    ensures
        r is Ok <==> estimated <= max,
        r is Err ==> status == 422,
{
    if r is Err {
        over_budget_is_unprocessable(estimated, max);
    }
}

/// An absent time is the latest one, an absent step selects raw samples, and an absent limit
/// is that of its API; what is given stays as it is.
pub proof fn absent_parameters_have_their_defaults(
    given: Option<i64>,
    limit: Option<u32>,
    time: i64,
    step: i64,
    traces: u32,
)
    requires
        call_ensures(parse_time_ns, (given,), time),
        call_ensures(parse_step_ns, (given,), step),
        call_ensures(tempo_limit, (limit,), traces),
    ensures
        given is Some ==> time == given->0 && step == given->0,
        given is None ==> time == i64::MAX && step == 0,
        limit is Some ==> traces == limit->0,
        limit is None ==> traces == 20,
{
}

/// A range request for logs without parameters asks for all time, a hundred lines, newest
/// first.
pub proof fn absent_log_parameters_have_their_defaults(
    start: &Option<String>,
    end: &Option<String>,
    limit: Option<u32>,
    direction: &Option<String>,
    r: LokiRequest,
)
    requires
        call_ensures(loki_query_range, (start, end, limit, direction), r),
    ensures
        *start is None ==> r.start == 0,
        *end is None ==> r.end == i64::MAX,
        r.limit == if limit is Some {
            limit->0
        } else {
            100u32
        },
        r.forward <==> *direction is Some && (*direction)->0@ == "forward"@,
{
}

/// A time is written as an integer exactly where it is a whole number of seconds, and then
/// as that number.
pub proof fn whole_seconds_are_integers(ns: i64, r: Option<i64>)
    requires
        call_ensures(ts_number, (ns,), r),
    ensures
        r is Some <==> exists|s: int| #[trigger] (s * 1_000_000_000) == ns,
        r is Some ==> r->0 * 1_000_000_000 == ns,
{
    if r is Some {
        let s = r->0 as int;
        assert(s * 1_000_000_000 == ns);
    }
    if exists|s: int| #[trigger] (s * 1_000_000_000) == ns {
        let s = choose|s: int| #[trigger] (s * 1_000_000_000) == ns;
        vstd::arithmetic::div_mod::lemma_mod_multiples_basic(s, 1_000_000_000);
    }
}

/// The listed values of a label are exactly those of its rows, without nulls, each once and
/// in ascending order.
pub proof fn label_values_are_exact(rows: &Vec<Option<String>>, r: Vec<String>, v: Seq<char>)
    requires
        call_ensures(handle_label_values, (rows,), r),
    ensures
        (exists|i: int| 0 <= i < r@.len() && (#[trigger] r@[i])@ == v) <==> exists|i: int|
            0 <= i < rows@.len() && (#[trigger] rows@[i]) is Some && rows@[i]->0@ == v,
        forall|i: int, j: int|
            0 <= i < j < r@.len() ==> precedes((#[trigger] r@[i])@, (#[trigger] r@[j])@),
{
    assert(listed(r@, v) <==> is_value(rows@, rows@.len() as int, v));
    assert forall|i: int, j: int| 0 <= i < j < r@.len() implies precedes(
        (#[trigger] r@[i])@,
        (#[trigger] r@[j])@,
    ) by {
        assert(precedes(texts(r@)[i], texts(r@)[j]));
    }
}

/// The listed label names are the metric name, the service name and the Prometheus names of
/// the keys, each once and in ascending order.
pub proof fn label_names_are_exact(keys: &Vec<String>, r: Vec<String>, n: Seq<char>)
    requires
        call_ensures(handle_labels, (keys,), r),
    ensures
        (exists|i: int| 0 <= i < r@.len() && (#[trigger] r@[i])@ == n) <==> n == "__name__"@ || n
            == "service_name"@ || exists|i: int|
            0 <= i < keys@.len() && normalized((#[trigger] keys@[i])@) == n,
        forall|i: int, j: int|
            0 <= i < j < r@.len() ==> precedes((#[trigger] r@[i])@, (#[trigger] r@[j])@),
{
    assert(listed(r@, n) <==> is_label_name(keys@, n));
    assert forall|i: int, j: int| 0 <= i < j < r@.len() implies precedes(
        (#[trigger] r@[i])@,
        (#[trigger] r@[j])@,
    ) by {
        assert(precedes(texts(r@)[i], texts(r@)[j]));
    }
}

} // verus!

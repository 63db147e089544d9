//! Laws of queries over histograms: which they are, and what they read.
use crate::classify::{
    by_labels, detect_bucket_heatmap, detect_hist_quantile, hist_base, histogram_quantile_parts,
    tests_without_le, without_le, BucketSpec, HistSpec,
};
use crate::histogram::{hist_instant_scan, hist_scans_view, hist_source, HistScan};
use crate::number::whole_count;
use crate::plan::TimeTest;
use crate::planned::matchers_are_tests;
use crate::promql::{Grouping, LabelMatcher, PromExpr, Selector};
use crate::selector::{tests_of, tests_view, LabelTest, TestView};
use crate::text::{ends_with, listed, texts};
use crate::windows::{source_windows, Capability, QueryScope};
use vstd::prelude::*;

verus! {

/// The tests of matchers on all labels but the metric name, in their order.
pub open spec fn tests_in(matchers: Seq<LabelMatcher>) -> Seq<TestView> {
    matchers.filter(|m: LabelMatcher| m.name@ != "__name__"@).map_values(
        |m: LabelMatcher| TestView { label: m.name@, op: m.op, value: m.value@ },
    )
}

proof fn other_labels_stay(l: Seq<Seq<char>>)
    ensures
        without_le(l) == l.filter(|n: Seq<char>| n != "le"@),
    decreases l.len(),
{
    reveal(Seq::filter);
    if l.len() > 0 {
        other_labels_stay(l.drop_last());
    }
}

proof fn other_tests_stay(s: Seq<TestView>)
    ensures
        tests_without_le(s) == s.filter(|t: TestView| t.label != "le"@),
    decreases s.len(),
{
    reveal(Seq::filter);
    if s.len() > 0 {
        other_tests_stay(s.drop_last());
    }
}

proof fn names_split(base: Seq<char>, name: Seq<char>)
    requires
        name == base + "_bucket"@,
    ensures
        ends_with(name, "_bucket"@),
        name.take(name.len() - "_bucket"@.len()) == base,
{
    let n = base.len() as int;
    assert(name.subrange(n, name.len() as int) =~= "_bucket"@);
    assert(name.take(n) =~= base);
}

/// Whether an expression is a selector, by itself or as the range vector of a function, and
/// which.
pub open spec fn reads(e: PromExpr, s: Selector) -> bool {
    match e {
        PromExpr::Vector(v) => v == s,
        PromExpr::Matrix(v, _) => v == s,
        PromExpr::Call { name, args } => args@.len() > 0 && match args@[0] {
            PromExpr::Matrix(v, _) => v == s,
            _ => false,
        },
        _ => false,
    }
}

proof fn reads_is_found(e: PromExpr, s: Selector)
    requires
        reads(e, s),
    ensures
        hist_base(e) == Some((s, Seq::<Seq<char>>::empty())),
{
    reveal_with_fuel(hist_base, 3);
}

/// `histogram_quantile(phi, e)` is a quantile query, where `e` reads a named metric, by
/// itself or in an aggregation: its quantile is `phi`, its histogram the metric with that
/// name or with that name before `_bucket`, and its rows are those that pass the matchers on
/// all labels but `le` and the metric name. It groups by the labels of `by` but `le`; without
/// `by`, by none.
pub proof fn quantile_queries_are_detected(
    name: String,
    args: Vec<PromExpr>,
    phi: u64,
    inner: PromExpr,
    s: Selector,
    metric: String,
    base: Seq<char>,
    r: Option<HistSpec>,
)
    requires
        name@ == "histogram_quantile"@,
        args@.len() >= 2,
        args@[0] == PromExpr::Number(phi),
        match args@[1] {
            PromExpr::Aggregate { op, expr, param, grouping } => *expr == inner,
            e => e == inner,
        },
        reads(inner, s),
        s.name == Some(metric),
        metric@ == base + "_bucket"@ || (metric@ == base && !ends_with(base, "_bucket"@)),
        call_ensures(detect_hist_quantile, (&PromExpr::Call { name, args },), r),
    ensures
        r is Some,
        r->0.phi == phi,
        r->0.base@ == base,
        r->0@.tests == tests_in(s.matchers@).filter(|t: TestView| t.label != "le"@),
        texts(r->0.group_by@) == (match args@[1] {
            PromExpr::Aggregate { op, expr, param, grouping } => match grouping {
                Some(Grouping::Include(l)) => texts(l@),
                _ => Seq::empty(),
            },
            _ => Seq::empty(),
        }).filter(|n: Seq<char>| n != "le"@),
        r->0.topk is None,
{
    reads_is_found(inner, s);
    matchers_are_tests(s.matchers@);
    other_tests_stay(tests_of(s.matchers@));
    if metric@ == base + "_bucket"@ {
        names_split(base, metric@);
    }
    let empty = Seq::<Seq<char>>::empty();
    other_labels_stay(empty);
    assert(without_le(empty) =~= empty);
    match args@[1] {
        PromExpr::Aggregate { op, expr, param, grouping } => {
            other_labels_stay(by_labels(grouping));
        },
        _ => {},
    }
}

/// `topk(n, q)` and `bottomk(n, q)` of a quantile query `q` are that query, of which the `n`
/// highest or lowest series are kept.
pub proof fn ranked_quantile_queries_are_detected(
    op: String,
    q: PromExpr,
    bits: u64,
    grouping: Option<Grouping>,
    plain: Option<HistSpec>,
    r: Option<HistSpec>,
)
    requires
        op@ == "topk"@ || op@ == "bottomk"@,
        whole_count(bits) is Some,
        call_ensures(detect_hist_quantile, (&q,), plain),
        ({
            let param = Some(Box::new(PromExpr::Number(bits)));
            let e = PromExpr::Aggregate { op, expr: Box::new(q), param, grouping };
            call_ensures(detect_hist_quantile, (&e,), r)
        }),
    ensures
        plain is Some <==> r is Some,
        r is Some ==> r->0.phi == plain->0.phi && r->0.base@ == plain->0.base@ && r->0@.tests
            == plain->0@.tests && r->0@.group_by == plain->0@.group_by,
        r is Some ==> r->0@.topk == Some((whole_count(bits)->0, op@ == "topk"@)),
{
}

/// What only reads a metric, and a comparison or calculation of two expressions, is no
/// quantile query, nor is a call of another function.
pub proof fn other_queries_are_no_quantiles(e: PromExpr, r: Option<HistSpec>)
    requires
        match e {
            PromExpr::Paren(_) | PromExpr::Aggregate { .. } => false,
            PromExpr::Call { name, args } => name@ != "histogram_quantile"@,
            _ => true,
        },
        call_ensures(detect_hist_quantile, (&e,), r),
    ensures
        r is None,
{
}

/// An aggregation by `le`, and maybe other labels, of what reads a metric whose name ends in
/// `_bucket` is a heatmap query: of the histogram with the name before that, of the rows that
/// pass all matchers but those on the metric name, by the other labels.
pub proof fn heatmap_queries_are_detected(
    op: String,
    inner: PromExpr,
    param: Option<Box<PromExpr>>,
    by: Vec<String>,
    s: Selector,
    metric: String,
    r: Option<BucketSpec>,
)
    requires
        reads(inner, s),
        s.name == Some(metric),
        call_ensures(
            detect_bucket_heatmap,
            (
                &PromExpr::Aggregate {
                    op,
                    expr: Box::new(inner),
                    param,
                    grouping: Some(Grouping::Include(by)),
                },
            ),
            r,
        ),
    ensures
        r is Some <==> ends_with(metric@, "_bucket"@) && exists|i: int|
            0 <= i < by@.len() && (#[trigger] by@[i])@ == "le"@,
        r is Some ==> r->0.base@ + "_bucket"@ == metric@,
        r is Some ==> r->0@.tests == tests_in(s.matchers@),
        r is Some ==> texts(r->0.group_by@) == texts(by@).filter(|n: Seq<char>| n != "le"@),
{
    reads_is_found(inner, s);
    matchers_are_tests(s.matchers@);
    other_labels_stay(texts(by@));
    assert(listed(by@, "le"@) <==> exists|i: int|
        0 <= i < by@.len() && (#[trigger] by@[i])@ == "le"@);
    if r is Some {
        let n = metric@.len() - "_bucket"@.len();
        assert(r->0.base@ + "_bucket"@ =~= metric@) by {
            assert(metric@.subrange(n, metric@.len() as int) == "_bucket"@);
            assert forall|k: int| n <= k < metric@.len() implies metric@[k] == "_bucket"@[k - n] by {
                assert(metric@.subrange(n, metric@.len() as int)[k - n] == metric@[k]);
            }
        }
    }
}

/// An aggregation without `by` is no heatmap query, nor is what is no aggregation.
pub proof fn other_queries_are_no_heatmaps(e: PromExpr, r: Option<BucketSpec>)
    requires
        match e {
            PromExpr::Paren(_) => false,
            PromExpr::Aggregate { op, expr, param, grouping } => match grouping {
                Some(Grouping::Include(_)) => false,
                _ => true,
            },
            _ => true,
        },
        call_ensures(detect_bucket_heatmap, (&e,), r),
    ensures
        r is None,
{
}

/// At an instant `histogram_quantile(phi, s)` is a quantile query where `s` is a selector, and
/// nothing else is one.
pub proof fn instant_quantiles_are_detected(
    name: String,
    args: Vec<PromExpr>,
    phi: u64,
    s: Selector,
    r: Option<(u64, &Selector)>,
)
    requires
        args@.len() >= 2,
        args@[0] == PromExpr::Number(phi),
        args@[1] == PromExpr::Vector(s),
        call_ensures(histogram_quantile_parts, (&PromExpr::Call { name, args },), r),
    ensures
        r is Some <==> name@ == "histogram_quantile"@,
        match r {
            Some((quantile, selector)) => quantile == phi && *selector == s,
            None => true,
        },
{
}

/// Over a range the rows of a histogram are read from the tables of its windows, which are
/// those of an operator that needs the last value of a bucket: in each window by the name of
/// the histogram and its tests, within the bounds of the window.
pub proof fn histogram_windows_are_read(
    tables: &Vec<String>,
    base: &str,
    tests: &Vec<LabelTest>,
    start: i64,
    end: i64,
    step: i64,
    now: i64,
    r: Vec<HistScan>,
    i: int,
)
    requires
        call_ensures(hist_source, (tables, base, tests, start, end, step, now), r),
    ensures
        ({
            let windows = source_windows(
                tables@,
                start as int,
                end as int,
                step as int,
                Capability::Last,
                now as int,
            );
            &&& r@.len() == windows.len()
            &&& 0 <= i < r@.len() ==> {
                let (lo, hi) = (windows[i].1 as i64, windows[i].2 as i64);
                &&& r@[i].table@ == windows[i].0
                &&& r@[i].scope == (QueryScope { lo_ns: lo, hi_ns: hi })
                &&& r@[i].name@.exact == base@
                &&& r@[i].name@.histogram is None
                &&& r@[i]@.tests == tests_view(tests@)
                &&& r@[i].time == TimeTest::Between(lo, hi)
            }
        }),
{
    let v = hist_scans_view(r@);
    assert(v.len() == r@.len());
    if 0 <= i < r@.len() {
        assert(v[i] == r@[i]@);
    }
}

/// At an instant they are the raw rows up to then, or up to now where no time is given, by
/// the name and the matchers of the selector; without a name the query is refused.
pub proof fn instant_histograms_are_read(
    tables: &Vec<String>,
    s: &Selector,
    time: i64,
    now: i64,
    r: Result<HistScan, String>,
)
    requires
        call_ensures(hist_instant_scan, (tables, s, time, now), r),
    ensures
        r is Ok <==> s.name is Some,
        ({
            let at = if time == i64::MAX {
                now
            } else {
                time
            };
            r is Ok ==> {
                &&& r->Ok_0.table@ == "metrics"@
                &&& r->Ok_0.scope == (QueryScope { lo_ns: i64::MIN, hi_ns: at })
                &&& r->Ok_0.name@.exact == s.name->0@
                &&& r->Ok_0.name@.histogram is None
                &&& r->Ok_0@.tests == tests_in(s.matchers@)
                &&& r->Ok_0.time == TimeTest::AtMost(at)
            }
        }),
{
    matchers_are_tests(s.matchers@);
}

} // verus!

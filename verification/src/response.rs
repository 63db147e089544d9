//! The answers of the Prometheus API: instant vectors and range matrices.
use crate::eval::{instant_needs, plan_instant, Needs};
use crate::labels::Labels;
use crate::number::Number;
use crate::promql::{parse, promql_tree, refused_with, PromExpr};
use crate::series::{InstantVal, Series};
use crate::text::owned;
use crate::windows::{anchored, instant_anchor};
use vstd::prelude::*;

verus! {

/// Prometheus query response envelope.
#[derive(Debug)]
pub struct PromResponse {
    /// `"success"` or `"error"`.
    pub status: String,
    /// Result payload.
    pub data: PromData,
}

/// Prometheus response data block.
#[derive(Debug)]
pub struct PromData {
    /// `"vector"` for instant queries.
    pub result_type: String,
    /// One sample per series.
    pub result: Vec<PromSample>,
}

/// One instant sample: a label set, a time in nanoseconds, and the text of the value.
#[derive(Debug)]
pub struct PromSample {
    /// Series label set.
    pub metric: Labels,
    /// The time and the value.
    pub value: (i64, String),
}

/// Whether a text is that of a value.
pub open spec fn writes<V: Number>(v: V, text: String) -> bool {
    call_ensures(V::text, (v,), text)
}

/// Whether a sample of the answer is that of a labelled value at a time.
pub open spec fn answers_sample<V: Number>(s: (Labels, i64, V), r: PromSample) -> bool {
    r.metric@ == s.0@ && r.value.0 == s.1 && writes(s.2, r.value.1)
}

impl PromResponse {
    /// Build a `vector` response from `(labels, time, value)` samples.
    pub fn vector<V: Number>(samples: Vec<(Labels, i64, V)>) -> (r: PromResponse)
        ensures
            r.status@ == "success"@,
            r.data.result_type@ == "vector"@,
            r.data.result@.len() == samples@.len(),
            forall|i: int|
                0 <= i < samples@.len() ==> answers_sample(
                    samples@[i],
                    #[trigger] r.data.result@[i],
                ),
    {
        let mut result: Vec<PromSample> = Vec::new();
        let mut i: usize = 0;
        while i < samples.len()
            invariant
                i <= samples@.len(),
                result@.len() == i,
                forall|j: int|
                    0 <= j < i ==> answers_sample(samples@[j], #[trigger] result@[j]),
            decreases samples.len() - i,
        {
            let text = V::text(samples[i].2);
            result.push(
                PromSample { metric: samples[i].0.copy(), value: (samples[i].1, text) },
            );
            i = i + 1;
        }
        PromResponse {
            status: owned("success"),
            data: PromData { result_type: owned("vector"), result },
        }
    }
}

/// A range query response envelope.
#[derive(Debug)]
pub struct PromMatrixResponse {
    /// `"success"` or `"error"`.
    pub status: String,
    /// Result payload.
    pub data: PromMatrixData,
}

/// Matrix response data block.
#[derive(Debug)]
pub struct PromMatrixData {
    /// Always `"matrix"` for range queries.
    pub result_type: String,
    /// One range series per label set.
    pub result: Vec<PromRange>,
}

/// One range series: a label set plus its points, each a time in nanoseconds and the
/// text of a value.
#[derive(Debug)]
pub struct PromRange {
    /// Series label set.
    pub metric: Labels,
    /// The times and the values, in the order of the series.
    pub values: Vec<(i64, String)>,
}

/// Whether a point of the answer is that of a series.
pub open spec fn answers_point<V: Number>(p: (i64, V), r: (i64, String)) -> bool {
    r.0 == p.0 && writes(p.1, r.1)
}

/// Whether a line of the answer is that of a series.
pub open spec fn answers_series<V: Number>(s: Series<V>, r: PromRange) -> bool {
    &&& r.metric@ == s.labels@
    &&& r.values@.len() == s.points@.len()
    &&& forall|i: int|
        0 <= i < s.points@.len() ==> answers_point(s.points@[i], #[trigger] r.values@[i])
}

fn range_of<V: Number>(s: &Series<V>) -> (r: PromRange)
    ensures
        answers_series(*s, r),
{
    let mut values: Vec<(i64, String)> = Vec::new();
    let mut i: usize = 0;
    while i < s.points.len()
        invariant
            i <= s.points@.len(),
            values@.len() == i,
            forall|j: int| 0 <= j < i ==> answers_point(s.points@[j], #[trigger] values@[j]),
        decreases s.points.len() - i,
    {
        let text = V::text(s.points[i].1);
        values.push((s.points[i].0, text));
        i = i + 1;
    }
    PromRange { metric: s.labels.copy(), values }
}

impl PromMatrixResponse {
    /// Build a `matrix` response from series.
    pub fn matrix<V: Number>(series: &Vec<Series<V>>) -> (r: PromMatrixResponse)
        ensures
            r.status@ == "success"@,
            r.data.result_type@ == "matrix"@,
            r.data.result@.len() == series@.len(),
            forall|i: int|
                0 <= i < series@.len() ==> answers_series(series@[i], #[trigger] r.data.result@[i]),
    {
        let mut result: Vec<PromRange> = Vec::new();
        let mut i: usize = 0;
        while i < series.len()
            invariant
                i <= series@.len(),
                result@.len() == i,
                forall|j: int|
                    0 <= j < i ==> answers_series(series@[j], #[trigger] result@[j]),
            decreases series.len() - i,
        {
            result.push(range_of(&series[i]));
            i = i + 1;
        }
        PromMatrixResponse {
            status: owned("success"),
            data: PromMatrixData { result_type: owned("matrix"), result },
        }
    }
}

/// The seconds of a time, where it has no fraction of a second: such a time is written
/// as an integer, any other as a decimal.
pub fn ts_number(ns: i64) -> (r: Option<i64>)
    ensures
        r is Some <==> ns as int % 1_000_000_000 == 0,
        r matches Some(s) ==> s * 1_000_000_000 == ns,
{
    let wide: i128 = ns as i128;
    let shifted: i128 = wide + 10_000_000_000_000_000_000;
    if shifted % 1_000_000_000 != 0 {
        return None;
    }
    let seconds: i128 = shifted / 1_000_000_000 - 10_000_000_000;
    Some(seconds as i64)
}

/// An instant query that was read: its expression, and the data that it needs.
#[derive(Debug)]
pub struct InstantQuery {
    pub expr: PromExpr,
    pub needs: Needs,
}

/// Read an instant query, and find the data that it needs.
pub fn handle_instant(tables: &Vec<String>, query: &str, time_ns: i64, now_ns: i64) -> (r: Result<
    InstantQuery,
    String,
>)
    ensures
        r is Ok <==> promql_tree(query@) is Some,
        r matches Ok(q) ==> promql_tree(query@) == Some(q.expr) && q.needs@ == instant_needs(
            tables@,
            q.expr,
            time_ns,
            now_ns,
        ),
        r matches Err(m) ==> refused_with(query@, m@),
{
    match parse(query) {
        Ok(expr) => {
            let needs = plan_instant(tables, &expr, time_ns, now_ns);
            Ok(InstantQuery { expr, needs })
        },
        Err(m) => Err(m),
    }
}

/// Whether samples are those of an instant value at a time: a scalar is one sample
/// without labels.
pub open spec fn stamped<V>(v: InstantVal<V>, time: int, s: Seq<(Labels, i64, V)>) -> bool {
    match v {
        InstantVal::Scalar(x) => s.len() == 1 && s[0].0@ == Map::<Seq<char>, Seq<char>>::empty()
            && s[0].1 == time && s[0].2 == x,
        InstantVal::Vector(w) => s.len() == w@.len() && forall|i: int|
            0 <= i < w@.len() ==> (#[trigger] s[i]).0@ == w@[i].0@ && s[i].1 == time && s[i].2
                == w@[i].1,
    }
}

/// The samples of an instant value, stamped with the time of the query: an omitted time
/// is now.
pub fn instant_samples<V: Copy>(v: &InstantVal<V>, time_ns: i64, now_ns: i64) -> (r: Vec<
    (Labels, i64, V),
>)
    ensures
        stamped(*v, anchored(time_ns as int, now_ns as int), r@),
{
    let time: i64 = instant_anchor(time_ns, now_ns);
    let mut r: Vec<(Labels, i64, V)> = Vec::new();
    match v {
        InstantVal::Scalar(x) => {
            r.push((Labels::new(), time, *x));
        },
        InstantVal::Vector(w) => {
            let mut i: usize = 0;
            while i < w.len()
                invariant
                    i <= w@.len(),
                    r@.len() == i,
                    forall|j: int|
                        0 <= j < i ==> (#[trigger] r@[j]).0@ == w@[j].0@ && r@[j].1 == time
                            && r@[j].2 == w@[j].1,
                decreases w.len() - i,
            {
                r.push((w[i].0.copy(), time, w[i].1));
                i = i + 1;
            }
        },
    }
    r
}

} // verus!

//! Laws of serving queries: which table answers which part of a span, and what is asked of
//! it.
use crate::classify::{anchored_windows, capability, has_selector};
use crate::number::whole_count;
use crate::promql::{BinaryModifier, Grouping, PromExpr, Selector};
use crate::range::{evaluated, lookback, outer_rank, serves, whole_scan, RangeQuery};
use crate::rollup::RollupTier;
use crate::text::listed;
use crate::windows::{source_windows, tier_table, windows_view, Capability};
use vstd::prelude::*;

verus! {

proof fn function_names_differ()
    ensures
        "rate"@.len() == 4,
        "increase"@.len() == 8,
        "irate"@.len() == 5,
        "max_over_time"@.len() == 13,
        "max_over_time"@[1] == 'a',
        "min_over_time"@.len() == 13,
        "min_over_time"@[1] == 'i',
        "avg_over_time"@.len() == 13,
        "avg_over_time"@[1] == 'v',
        "sum_over_time"@.len() == 13,
        "sum_over_time"@[1] == 'u',
        "count_over_time"@.len() == 15,
        "histogram_quantile"@.len() == 18,
        "topk"@.len() == 4,
        "topk"@[0] == 't',
        "bottomk"@.len() == 7,
{
    reveal_strlit("rate");
    reveal_strlit("increase");
    reveal_strlit("irate");
    reveal_strlit("max_over_time");
    reveal_strlit("min_over_time");
    reveal_strlit("avg_over_time");
    reveal_strlit("sum_over_time");
    reveal_strlit("count_over_time");
    reveal_strlit("histogram_quantile");
    reveal_strlit("topk");
    reveal_strlit("bottomk");
}

/// Counters need the last value of a rollup bucket, `max_over_time` and `min_over_time` its
/// extrema, and `avg_over_time`, `sum_over_time` and `count_over_time` its sum and count.
/// Every other function but `histogram_quantile`, `irate` too, needs raw samples, and so
/// does a bare selector.
pub proof fn functions_need_their_columns(name: String, args: Vec<PromExpr>, s: Selector)
    ensures
        ({
            let c = capability(PromExpr::Call { name, args });
            let n = name@;
            &&& n == "rate"@ || n == "increase"@ ==> c == Capability::Last
            &&& n == "max_over_time"@ || n == "min_over_time"@ ==> c == Capability::MinMax
            &&& n == "avg_over_time"@ || n == "sum_over_time"@ || n == "count_over_time"@ ==> c
                == Capability::SumCount
            &&& n != "rate"@ && n != "increase"@ && n != "max_over_time"@ && n != "min_over_time"@
                && n != "avg_over_time"@ && n != "sum_over_time"@ && n != "count_over_time"@ && n
                != "histogram_quantile"@ ==> c == Capability::Raw
            &&& capability(PromExpr::Vector(s)) == Capability::Raw
        }),
{
    function_names_differ();
}

/// Two metric operands that need different columns, or one of which needs raw samples, are
/// read raw; and two that need the same are read as each of them is.
pub proof fn operands_have_to_agree(
    op: String,
    l: PromExpr,
    r: PromExpr,
    modifier: Option<BinaryModifier>,
)
    requires
        has_selector(l),
        has_selector(r),
    ensures
        ({
            let both = PromExpr::Binary { op, lhs: Box::new(l), rhs: Box::new(r), modifier };
            &&& capability(l) == capability(r) ==> capability(both) == capability(l)
            &&& capability(l) != capability(r) ==> capability(both) == Capability::Raw
        }),
{
}

/// What is known of the names of tables.
proof fn table_names_differ()
    ensures
        tier_table(RollupTier::M5) == "metrics_5m"@,
        tier_table(RollupTier::H1) == "metrics_1h"@,
        tier_table(RollupTier::D1) == "metrics_1d"@,
{
    reveal_strlit("metrics_");
    reveal_strlit("5m");
    reveal_strlit("1h");
    reveal_strlit("1d");
    reveal_strlit("metrics_5m");
    reveal_strlit("metrics_1h");
    reveal_strlit("metrics_1d");
    assert("metrics_"@ + "5m"@ =~= "metrics_5m"@);
    assert("metrics_"@ + "1h"@ =~= "metrics_1h"@);
    assert("metrics_"@ + "1d"@ =~= "metrics_1d"@);
}

/// The table that serves a resolution: that of the coarsest registered tier among a day, an
/// hour and five minutes that is not coarser than it; else the raw one.
pub open spec fn table_for(tables: Seq<String>, resolution_ns: int) -> Seq<char> {
    if resolution_ns >= 86_400_000_000_000 && listed(tables, "metrics_1d"@) {
        "metrics_1d"@
    } else if resolution_ns >= 3_600_000_000_000 && listed(tables, "metrics_1h"@) {
        "metrics_1h"@
    } else if resolution_ns >= 300_000_000_000 && listed(tables, "metrics_5m"@) {
        "metrics_5m"@
    } else {
        "metrics"@
    }
}

/// What an operator that needs some columns of a bucket reads: up to a day before now from
/// the coarsest table that is fine enough, and from there on from the raw one; all from the
/// raw one where no table is fine enough, and with an operator that needs raw samples.
pub proof fn sealed_days_read_the_coarsest_table(
    tables: Seq<String>,
    start: int,
    end: int,
    resolution_ns: int,
    c: Capability,
    now: int,
)
    ensures
        ({
            let w = source_windows(tables, start, end, resolution_ns, c, now);
            let table = table_for(tables, resolution_ns);
            let sealed = now - 86_400_000_000_000;
            &&& c == Capability::Raw || table == "metrics"@ || start > sealed ==> w == seq![
                ("metrics"@, start, end),
            ]
            &&& c != Capability::Raw && table != "metrics"@ && end <= sealed && start <= sealed
                ==> w == seq![(table, start, end)]
            &&& c != Capability::Raw && table != "metrics"@ && start <= sealed && sealed < end ==> w
                == seq![(table, start, sealed), ("metrics"@, sealed + 1, end)]
        }),
{
    table_names_differ();
    reveal_strlit("metrics_5m");
    reveal_strlit("metrics_1h");
    reveal_strlit("metrics_1d");
    reveal_strlit("metrics");
    assert("metrics_5m"@.len() == 10 && "metrics_1h"@.len() == 10 && "metrics_1d"@.len() == 10);
    assert("metrics"@.len() == 7);
}

/// `topk(n, e)` and `bottomk(n, e)` evaluate `e`, and keep the `n` highest or lowest of its
/// series; any other expression is evaluated as it is, and keeps all.
pub proof fn ranks_are_taken_off(
    op: String,
    expr: Box<PromExpr>,
    bits: u64,
    grouping: Option<Grouping>,
    other: PromExpr,
)
    requires
        op@ == "topk"@ || op@ == "bottomk"@,
        whole_count(bits) is Some,
    ensures
        ({
            let e = PromExpr::Aggregate {
                op,
                expr,
                param: Some(Box::new(PromExpr::Number(bits))),
                grouping,
            };
            &&& evaluated(e) == *expr
            &&& outer_rank(e) == Some((whole_count(bits)->0, op@ == "topk"@))
        }),
        !(other is Aggregate) && !(other is Paren) ==> evaluated(other) == other && outer_rank(
            other,
        ) is None,
{
    function_names_differ();
}

/// The scan of a range function begins its window earlier by the range of the function, so
/// that the first point has its samples; that of any other expression begins with the
/// window. What it emits is the window.
pub proof fn scans_look_back(
    name: String,
    args: Vec<PromExpr>,
    s: Selector,
    range: u128,
    table: Seq<char>,
    start: i64,
    end: i64,
)
    requires
        args@.len() > 0,
        args@[0] == PromExpr::Matrix(s, range),
        range <= i64::MAX,
    ensures
        ({
            let e = PromExpr::Call { name, args };
            let scan = whole_scan((table, start as int, end as int), lookback(e));
            &&& scan.0 == table
            &&& scan.1.start == start
            &&& scan.1.end == end
            &&& start - range >= i64::MIN ==> scan.1.scan_start == start - range
            &&& start - range < i64::MIN ==> scan.1.scan_start == i64::MIN
            &&& lookback(PromExpr::Vector(s)) == 0
        }),
{
}

/// At an instant a range function reads the window of its range that ends there, and for
/// counters once more that window before it, for the sample before the first. An omitted
/// time is now.
pub proof fn instants_read_their_window(
    tables: Seq<String>,
    name: String,
    args: Vec<PromExpr>,
    s: Selector,
    range: u128,
    time: i64,
    now: i64,
)
    requires
        args@.len() > 0,
        args@[0] == PromExpr::Matrix(s, range),
        range <= i64::MAX,
        (if time == i64::MAX {
            now
        } else {
            time
        }) - 2 * range >= i64::MIN,
    ensures
        ({
            let e = PromExpr::Call { name, args };
            let at: int = if time == i64::MAX {
                now as int
            } else {
                time as int
            };
            let counter = name@ == "rate"@ || name@ == "increase"@ || name@ == "irate"@;
            let from = if counter {
                at - 2 * range
            } else {
                at - range
            };
            anchored_windows(tables, e, time as int, now as int) == Ok::<
                Seq<(Seq<char>, int, int)>,
                Seq<char>,
            >(source_windows(tables, from, at, range as int, capability(e), now as int))
        }),
{
}

/// What a range query is served from: the windows of its own operator over its own span and
/// step.
pub proof fn windows_are_those_of_the_operator(
    r: RangeQuery,
    tables: Seq<String>,
    query: PromExpr,
    start: int,
    end: int,
    step: int,
    now: int,
)
    requires
        serves(r, tables, query, start, end, step, now),
        query is Call || query is Vector || query is Unary || query is Binary,
    ensures
        r matches RangeQuery::Windows(t) ==> t.expr == query && t.topk is None && windows_view(
            t.windows@,
        ) == source_windows(tables, start, end, step, capability(query), now),
        !(r is Heatmap),
        r is Quantile ==> (query matches PromExpr::Call { name, args } && name@
            == "histogram_quantile"@),
{
}

} // verus!

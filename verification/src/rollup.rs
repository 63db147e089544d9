//! Metric rollup tiers: which tier serves a query, and how one is made.
use crate::classify::AggKind;
use crate::text::{joined, owned, str_eq, texts, texts_push};
use vstd::prelude::*;

verus! {

pub const M5_NS: i64 = 300_000_000_000;

pub const H1_NS: i64 = 3_600_000_000_000;

pub const D1_NS: i64 = 86_400_000_000_000;

/// A downsampling resolution tier.
#[derive(Debug, Clone, Copy, PartialEq, Eq, Structural)]
pub enum RollupTier {
    /// Original samples.
    Raw,
    /// 5-minute resolution.
    M5,
    /// 1-hour resolution.
    H1,
    /// 1-day resolution.
    D1,
}

impl RollupTier {
    /// The bucket width of a tier, zero for the original samples.
    pub open spec fn width(self) -> int {
        match self {
            RollupTier::Raw => 0,
            RollupTier::M5 => M5_NS as int,
            RollupTier::H1 => H1_NS as int,
            RollupTier::D1 => D1_NS as int,
        }
    }

    /// The label of a tier in file and table names.
    pub open spec fn tag(self) -> Seq<char> {
        match self {
            RollupTier::Raw => "raw"@,
            RollupTier::M5 => "5m"@,
            RollupTier::H1 => "1h"@,
            RollupTier::D1 => "1d"@,
        }
    }

    /// Bucket width in nanoseconds (`Raw` = 0).
    pub fn resolution_ns(self) -> (r: i64)
        ensures
            r == self.width(),
    {
        match self {
            RollupTier::Raw => 0,
            RollupTier::M5 => M5_NS,
            RollupTier::H1 => H1_NS,
            RollupTier::D1 => D1_NS,
        }
    }

    /// Footer/file label.
    pub fn label(self) -> (r: &'static str)
        ensures
            r@ == self.tag(),
    {
        match self {
            RollupTier::Raw => "raw",
            RollupTier::M5 => "5m",
            RollupTier::H1 => "1h",
            RollupTier::D1 => "1d",
        }
    }

    /// Rollup tiers, coarsest last.
    pub fn all() -> (r: [RollupTier; 3])
        ensures
            r@ == seq![RollupTier::M5, RollupTier::H1, RollupTier::D1],
    {
        let r = [RollupTier::M5, RollupTier::H1, RollupTier::D1];
        assert(r@ =~= seq![RollupTier::M5, RollupTier::H1, RollupTier::D1]);
        r
    }
}

/// Only metric tables get rollups.
pub fn is_rollup_eligible(signal: &str) -> (r: bool)
    ensures
        r == (signal@ == "metrics"@),
{
    str_eq(signal, "metrics")
}

/// Whether a tier can serve a step: it is a rollup, and no coarser than the step.
pub open spec fn serves(t: RollupTier, step_ns: int) -> bool {
    0 < t.width() <= step_ns
}

/// Whether `t` is the coarsest of the available tiers that serve the step, or
/// `Raw` where none does.
pub open spec fn is_selected(t: RollupTier, step_ns: int, available: Seq<RollupTier>) -> bool {
    if exists|i: int| 0 <= i < available.len() && serves(#[trigger] available[i], step_ns) {
        &&& available.contains(t)
        &&& serves(t, step_ns)
        &&& forall|i: int|
            0 <= i < available.len() && serves(#[trigger] available[i], step_ns)
                ==> available[i].width() <= t.width()
    } else {
        t == RollupTier::Raw
    }
}

/// Pick the coarsest **available** tier whose resolution ≤ `step_ns`; fall back
/// to `Raw` when none qualifies (e.g. a fine step, or the tier is absent).
pub fn select_tier(step_ns: i64, available: &[RollupTier]) -> (r: RollupTier)
    ensures
        is_selected(r, step_ns as int, available@),
{
    let mut best = RollupTier::Raw;
    let mut i: usize = 0;
    while i < available.len()
        invariant
            i <= available@.len(),
            is_selected(best, step_ns as int, available@.take(i as int)),
        decreases available.len() - i,
    {
        let t = available[i];
        let ghost before = available@.take(i as int);
        let ghost after = available@.take(i + 1);
        let ghost old_best = best;
        let width = t.resolution_ns();
        if width > 0 && width <= step_ns && width >= best.resolution_ns() {
            best = t;
        }
        proof {
            assert(after =~= before.push(t));
            assert(after[i as int] == t);
            assert forall|j: int| 0 <= j < before.len() implies after[j] == before[j] by {}
            if exists|j: int| 0 <= j < before.len() && serves(#[trigger] before[j], step_ns as int) {
                let j = choose|j: int|
                    0 <= j < before.len() && serves(#[trigger] before[j], step_ns as int);
                assert(serves(after[j], step_ns as int));
                let k = choose|k: int| 0 <= k < before.len() && before[k] == old_best;
                assert(after[k] == old_best);
            }
            if exists|j: int| 0 <= j < after.len() && serves(#[trigger] after[j], step_ns as int) {
                let j = choose|j: int|
                    0 <= j < after.len() && serves(#[trigger] after[j], step_ns as int);
                if j < i {
                    assert(serves(before[j], step_ns as int));
                }
            }
        }
        i = i + 1;
    }
    assert(available@.take(available@.len() as int) =~= available@);
    best
}

/// The tier that is selected is determined by the step and by which tiers are
/// available.
pub proof fn selection_is_unique(
    a: RollupTier,
    b: RollupTier,
    step_ns: int,
    available: Seq<RollupTier>,
)
    requires
        is_selected(a, step_ns, available),
        is_selected(b, step_ns, available),
    ensures
        a == b,
{
    if exists|i: int| 0 <= i < available.len() && serves(#[trigger] available[i], step_ns) {
        let i = choose|i: int| 0 <= i < available.len() && available[i] == a;
        let j = choose|j: int| 0 <= j < available.len() && available[j] == b;
        assert(serves(available[i], step_ns) && serves(available[j], step_ns));
    }
}

/// A coarser step never selects a finer tier.
pub proof fn selection_is_monotone(
    a: RollupTier,
    b: RollupTier,
    fine_ns: int,
    coarse_ns: int,
    available: Seq<RollupTier>,
)
    requires
        fine_ns <= coarse_ns,
        is_selected(a, fine_ns, available),
        is_selected(b, coarse_ns, available),
    ensures
        a.width() <= b.width(),
{
    if exists|i: int| 0 <= i < available.len() && serves(#[trigger] available[i], fine_ns) {
        let i = choose|i: int| 0 <= i < available.len() && available[i] == a;
        assert(serves(available[i], coarse_ns));
    }
}

/// The per-bucket aggregates that a rollup computes.
pub open spec fn is_value_aggregate(n: Seq<char>) -> bool {
    n == "value_min"@ || n == "value_max"@ || n == "value_sum"@ || n == "value_count"@
}

/// The columns by which a rollup groups, besides the time bucket.
pub open spec fn is_series_column(n: Seq<char>) -> bool {
    n == "name"@ || n == "service_name"@ || n == "prom_series_key"@
}

fn names_value_aggregate(n: &str) -> (r: bool)
    ensures
        r == is_value_aggregate(n@),
{
    str_eq(n, "value_min") || str_eq(n, "value_max") || str_eq(n, "value_sum") || str_eq(
        n,
        "value_count",
    )
}

fn names_series_column(n: &str) -> (r: bool)
    ensures
        r == is_series_column(n@),
{
    str_eq(n, "name") || str_eq(n, "service_name") || str_eq(n, "prom_series_key")
}

/// Where the scalar value of a sample comes from.
#[derive(Debug, Clone, Copy, PartialEq, Eq, Structural)]
pub enum ScalarSource {
    /// `double_value`, else `int_value` as a double.
    DoubleOrInt,
    /// `double_value`.
    Double,
    /// `int_value` as a double.
    Int,
    /// No scalar column: a null double.
    Null,
}

/// The downsample plan: keep the last raw sample per `(name, service_name,
/// prom_series_key, time / resolution)`, with the least, the greatest, the sum and
/// the count of the scalar values of each bucket, and sort by
/// `(service_name, prom_name, time)`.
#[derive(Debug)]
pub struct RollupPlan {
    /// The columns to group by, before the bucket `time_unix_nano / resolution_ns`.
    pub keys: Vec<String>,
    /// The bucket width.
    pub resolution_ns: i64,
    /// The columns whose value at the latest time of the bucket is kept.
    pub last: Vec<String>,
    /// The column by whose greatest value "latest" is taken.
    pub last_by: String,
    /// What the aggregates are taken over.
    pub scalar: ScalarSource,
    /// The aggregates of the scalar values of a bucket, each under its name.
    pub aggregates: Vec<(String, AggKind)>,
    /// The output columns, before the aggregates.
    pub columns: Vec<String>,
    /// The columns to sort by, ascending.
    pub order: Vec<String>,
}

/// Aggregates with their names, as values.
pub open spec fn aggregates_view(s: Seq<(String, AggKind)>) -> Seq<(Seq<char>, AggKind)> {
    Seq::new(s.len(), |i: int| (s[i].0@, s[i].1))
}

/// The columns of the input whose latest value is kept, in their order.
pub open spec fn last_columns(columns: Seq<Seq<char>>) -> Seq<Seq<char>>
    decreases columns.len(),
{
    if columns.len() == 0 {
        Seq::empty()
    } else {
        let rest = last_columns(columns.drop_last());
        let n = columns.last();
        if is_series_column(n) || is_value_aggregate(n) {
            rest
        } else {
            rest.push(n)
        }
    }
}

/// The columns of the input that the output carries, in their order.
pub open spec fn carried_columns(columns: Seq<Seq<char>>) -> Seq<Seq<char>>
    decreases columns.len(),
{
    if columns.len() == 0 {
        Seq::empty()
    } else {
        let rest = carried_columns(columns.drop_last());
        let n = columns.last();
        if is_value_aggregate(n) {
            rest
        } else {
            rest.push(n)
        }
    }
}

/// The output carries each of the four aggregates once: none of them is among the
/// columns that are carried over, whatever the input has. Its other columns are those
/// of the input.
pub proof fn aggregates_are_appended_once(columns: Seq<Seq<char>>, n: Seq<char>)
    ensures
        carried_columns(columns).contains(n) <==> columns.contains(n) && !is_value_aggregate(n),
    decreases columns.len(),
{
    if columns.len() > 0 {
        let rest = columns.drop_last();
        let last = columns.last();
        let carried = carried_columns(rest);
        aggregates_are_appended_once(rest, n);
        assert(columns =~= rest.push(last));
        assert(columns.contains(n) <==> rest.contains(n) || n == last) by {
            if rest.contains(n) {
                let i = choose|i: int| 0 <= i < rest.len() && rest[i] == n;
                assert(columns[i] == n);
            }
            if n == last {
                assert(columns[rest.len() as int] == n);
            }
            if columns.contains(n) && n != last {
                let i = choose|i: int| 0 <= i < columns.len() && columns[i] == n;
                assert(rest[i] == n);
            }
        }
        assert(carried.push(last).contains(n) <==> carried.contains(n) || n == last) by {
            let more = carried.push(last);
            if carried.contains(n) {
                let i = choose|i: int| 0 <= i < carried.len() && carried[i] == n;
                assert(more[i] == n);
            }
            if n == last {
                assert(more[carried.len() as int] == n);
            }
            if more.contains(n) && n != last {
                let i = choose|i: int| 0 <= i < more.len() && more[i] == n;
                assert(carried[i] == n);
            }
        }
    }
}

/// Where the scalar value comes from, given the columns of the input.
pub open spec fn scalar_source(columns: Seq<Seq<char>>) -> ScalarSource {
    match (columns.contains("double_value"@), columns.contains("int_value"@)) {
        (true, true) => ScalarSource::DoubleOrInt,
        (true, false) => ScalarSource::Double,
        (false, true) => ScalarSource::Int,
        (false, false) => ScalarSource::Null,
    }
}

/// The downsample plan over a table with the given columns.
pub fn rollup_plan(columns: &Vec<String>, resolution_ns: i64) -> (r: RollupPlan)
    ensures
        texts(r.keys@) == seq!["name"@, "service_name"@, "prom_series_key"@],
        r.resolution_ns == resolution_ns,
        texts(r.last@) == last_columns(texts(columns@)),
        r.last_by@ == "time_unix_nano"@,
        r.scalar == scalar_source(texts(columns@)),
        aggregates_view(r.aggregates@) == seq![
            ("value_min"@, AggKind::Min),
            ("value_max"@, AggKind::Max),
            ("value_sum"@, AggKind::Sum),
            ("value_count"@, AggKind::Count),
        ],
        texts(r.columns@) == carried_columns(texts(columns@)),
        texts(r.order@) == seq!["service_name"@, "prom_name"@, "time_unix_nano"@],
{
    let mut last: Vec<String> = Vec::new();
    let mut carried: Vec<String> = Vec::new();
    let mut double = false;
    let mut int_column = false;
    let ghost all = texts(columns@);
    let mut i: usize = 0;
    while i < columns.len()
        invariant
            all == texts(columns@),
            i <= columns@.len(),
            texts(last@) == last_columns(all.take(i as int)),
            texts(carried@) == carried_columns(all.take(i as int)),
            double == all.take(i as int).contains("double_value"@),
            int_column == all.take(i as int).contains("int_value"@),
        decreases columns.len() - i,
    {
        let n = columns[i].as_str();
        let ghost seen = all.take(i + 1);
        proof {
            assert(seen.drop_last() =~= all.take(i as int));
            assert(seen =~= all.take(i as int).push(n@));
            assert(seen.last() == n@);
        }
        let ghost last0 = last@;
        let ghost carried0 = carried@;
        let aggregate = names_value_aggregate(n);
        if !aggregate {
            carried.push(owned(n));
            proof {
                texts_push(carried0, carried@.last());
            }
            if !names_series_column(n) {
                last.push(owned(n));
                proof {
                    texts_push(last0, last@.last());
                }
            }
        }
        let is_double = str_eq(n, "double_value");
        let is_int = str_eq(n, "int_value");
        proof {
            let before = all.take(i as int);
            assert(seen.contains(n@)) by {
                assert(seen[i as int] == n@);
            }
            assert forall|x: Seq<char>| before.contains(x) implies seen.contains(x) by {
                let k = choose|k: int| 0 <= k < before.len() && before[k] == x;
                assert(seen[k] == x);
            }
            assert forall|x: Seq<char>| seen.contains(x) implies before.contains(x) || x == n@ by {
                let k = choose|k: int| 0 <= k < seen.len() && seen[k] == x;
                if k < i {
                    assert(before[k] == x);
                }
            }
        }
        double = double || is_double;
        int_column = int_column || is_int;
        i = i + 1;
    }
    proof {
        assert(all.take(columns@.len() as int) =~= all);
    }
    let mut keys: Vec<String> = Vec::new();
    keys.push(owned("name"));
    keys.push(owned("service_name"));
    keys.push(owned("prom_series_key"));
    let mut order: Vec<String> = Vec::new();
    order.push(owned("service_name"));
    order.push(owned("prom_name"));
    order.push(owned("time_unix_nano"));
    proof {
        assert(texts(keys@) =~= seq!["name"@, "service_name"@, "prom_series_key"@]);
        assert(texts(order@) =~= seq!["service_name"@, "prom_name"@, "time_unix_nano"@]);
    }
    let scalar = if double && int_column {
        ScalarSource::DoubleOrInt
    } else if double {
        ScalarSource::Double
    } else if int_column {
        ScalarSource::Int
    } else {
        ScalarSource::Null
    };
    let mut aggregates: Vec<(String, AggKind)> = Vec::new();
    aggregates.push((owned("value_min"), AggKind::Min));
    aggregates.push((owned("value_max"), AggKind::Max));
    aggregates.push((owned("value_sum"), AggKind::Sum));
    aggregates.push((owned("value_count"), AggKind::Count));
    assert(aggregates_view(aggregates@) =~= seq![
        ("value_min"@, AggKind::Min),
        ("value_max"@, AggKind::Max),
        ("value_sum"@, AggKind::Sum),
        ("value_count"@, AggKind::Count),
    ]);
    let last_by = owned("time_unix_nano");
    RollupPlan { keys, resolution_ns, last, last_by, scalar, aggregates, columns: carried, order }
}

/// The rows of a partition need downsampling: there are any, and the tier is a
/// rollup. Otherwise they are returned unchanged.
pub fn needs_rollup(batches: usize, resolution_ns: i64) -> (r: bool)
    ensures
        r == (batches > 0 && resolution_ns > 0),
{
    batches > 0 && resolution_ns > 0
}

/// Whether a rollup file already reflects its sources: it exists, and none of
/// them was modified after it.
pub open spec fn is_current(modified: Option<i128>, sources: Seq<i128>) -> bool {
    match modified {
        None => false,
        Some(at) => forall|i: int| 0 <= i < sources.len() ==> #[trigger] sources[i] <= at,
    }
}

/// Whether a rollup file, modified at `modified` if it exists, already reflects
/// its sources, modified at `sources`. Lets a sealed partition be rolled up once
/// and skipped thereafter.
pub fn rollup_is_current(modified: Option<i128>, sources: &Vec<i128>) -> (r: bool)
    ensures
        r == is_current(modified, sources@),
{
    match modified {
        None => false,
        Some(at) => {
            let mut i: usize = 0;
            while i < sources.len()
                invariant
                    i <= sources@.len(),
                    forall|j: int| 0 <= j < i ==> #[trigger] sources@[j] <= at,
                    modified == Some(at),
                decreases sources.len() - i,
            {
                if sources[i] > at {
                    return false;
                }
                i = i + 1;
            }
            true
        },
    }
}

/// The name of a tier's rollup file in its partition.
pub fn rollup_file(tier: RollupTier) -> (r: String)
    ensures
        r@ == "rollup-"@ + tier.tag() + ".parquet"@,
{
    let stem = joined("rollup-", tier.label());
    joined(stem.as_str(), ".parquet")
}

/// The bucket width with which a partition has to be downsampled now, if it has
/// to be: there are sources, the rollup file does not reflect them yet, and the
/// tier is a rollup.
pub fn rollup_due(modified: Option<i128>, sources: &Vec<i128>, tier: RollupTier) -> (r: Option<i64>)
    ensures
        r is Some <==> sources@.len() > 0 && !is_current(modified, sources@) && tier
            != RollupTier::Raw,
        r matches Some(ns) ==> ns == tier.width(),
{
    if sources.len() == 0 {
        return None;
    }
    if rollup_is_current(modified, sources) {
        return None;
    }
    let resolution_ns = tier.resolution_ns();
    if resolution_ns <= 0 {
        return None;
    }
    Some(resolution_ns)
}

/// How a written rollup file is finished.
#[derive(Debug, Clone, Copy, PartialEq, Eq, Structural)]
pub enum RollupOutcome {
    /// Nothing was written: drop the staged file.
    Discard,
    /// Publish the file at this compaction level, with this many rows.
    Publish { level: u8, rows: usize },
}

/// What becomes of a staged rollup file into which `rows` rows were written.
pub fn rollup_outcome(rows: usize) -> (r: RollupOutcome)
    ensures
        r == if rows == 0 {
            RollupOutcome::Discard
        } else {
            RollupOutcome::Publish { level: 2, rows }
        },
{
    if rows == 0 {
        RollupOutcome::Discard
    } else {
        RollupOutcome::Publish { level: 2, rows }
    }
}

} // verus!

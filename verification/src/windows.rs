//! Source windows of a metric query: which table serves which part of its span.
use crate::rollup::{is_selected, selection_is_unique, select_tier, serves, RollupTier, D1_NS};
use crate::text::{in_list, joined, listed, owned};
use vstd::prelude::*;

verus! {

/// The per-bucket information a range operator needs from a rollup tier. `Raw`
/// means that no tier can answer exactly: the query must read raw samples.
#[derive(Debug, Clone, Copy, PartialEq, Eq, Structural)]
pub enum Capability {
    /// Last cumulative value per bucket: `rate`/`increase`/`histogram_quantile`.
    Last,
    /// Per-bucket extrema: `max_over_time`/`min_over_time`.
    MinMax,
    /// Per-bucket sum/count: `avg_/sum_/count_over_time`.
    SumCount,
    /// Force raw: `irate`, `quantile/stddev/stdvar_over_time`, bare selectors,
    /// and any unclassified operator.
    Raw,
}

/// A time-disjoint source window for a metric query: `(table, lo_ns, hi_ns)`,
/// both bounds inclusive.
pub type MetricWindow = (String, i64, i64);

/// One day in nanoseconds: rollups only cover fully-sealed days, so the trailing
/// day before now is always read raw.
pub const SEALED_OFFSET_NS: i64 = D1_NS;

/// A window as a value.
pub open spec fn window_view(w: MetricWindow) -> (Seq<char>, int, int) {
    (w.0@, w.1 as int, w.2 as int)
}

/// Windows as values.
pub open spec fn windows_view(s: Seq<MetricWindow>) -> Seq<(Seq<char>, int, int)> {
    Seq::new(s.len(), |i: int| window_view(s[i]))
}

/// The table of raw samples.
pub open spec fn raw_table() -> Seq<char> {
    "metrics"@
}

/// The table of a rollup tier.
pub open spec fn tier_table(t: RollupTier) -> Seq<char> {
    "metrics_"@ + t.tag()
}

/// Whether a tier is registered and no coarser than the resolution.
pub open spec fn can_serve(tables: Seq<String>, t: RollupTier, resolution_ns: int) -> bool {
    listed(tables, tier_table(t)) && serves(t, resolution_ns)
}

/// The coarsest registered tier that is no coarser than the resolution.
pub open spec fn tier_for(tables: Seq<String>, resolution_ns: int) -> RollupTier {
    if can_serve(tables, RollupTier::D1, resolution_ns) {
        RollupTier::D1
    } else if can_serve(tables, RollupTier::H1, resolution_ns) {
        RollupTier::H1
    } else if can_serve(tables, RollupTier::M5, resolution_ns) {
        RollupTier::M5
    } else {
        RollupTier::Raw
    }
}

/// The source windows of `[start, end]`: the sealed part, up to a day before
/// `now`, from the tier, and the rest from the raw samples; all of it from the raw
/// samples where the operator or the resolution rules a tier out, or where no part
/// is sealed.
pub open spec fn source_windows(
    tables: Seq<String>,
    start: int,
    end: int,
    resolution_ns: int,
    capability: Capability,
    now: int,
) -> Seq<(Seq<char>, int, int)> {
    let tier = tier_for(tables, resolution_ns);
    let sealed = now - SEALED_OFFSET_NS;
    if capability == Capability::Raw || tier == RollupTier::Raw || start > sealed {
        seq![(raw_table(), start, end)]
    } else if end > sealed {
        seq![(tier_table(tier), start, sealed), (raw_table(), sealed + 1, end)]
    } else {
        seq![(tier_table(tier), start, end)]
    }
}

/// The tiers among `RollupTier::all()` whose tables are registered.
fn available_tiers(tables: &Vec<String>) -> (r: Vec<RollupTier>)
    ensures
        forall|t: RollupTier| #[trigger]
            r@.contains(t) <==> t != RollupTier::Raw && listed(tables@, tier_table(t)),
{
    let all = RollupTier::all();
    let mut out: Vec<RollupTier> = Vec::new();
    let mut i: usize = 0;
    while i < 3
        invariant
            all@ == seq![RollupTier::M5, RollupTier::H1, RollupTier::D1],
            i <= 3,
            forall|t: RollupTier| #[trigger]
                out@.contains(t) <==> all@.take(i as int).contains(t) && listed(
                    tables@,
                    tier_table(t),
                ),
        decreases 3 - i,
    {
        let t = all[i];
        let ghost before = out@;
        let ghost seen = all@.take(i + 1);
        let name = joined("metrics_", t.label());
        if in_list(tables, name.as_str()) {
            out.push(t);
        }
        proof {
            let old_seen = all@.take(i as int);
            assert(seen[i as int] == t);
            assert forall|x: RollupTier| #[trigger]
                out@.contains(x) <==> seen.contains(x) && listed(tables@, tier_table(x)) by {
                if old_seen.contains(x) {
                    let k = choose|k: int| 0 <= k < old_seen.len() && old_seen[k] == x;
                    assert(seen[k] == x);
                }
                if seen.contains(x) && x != t {
                    let k = choose|k: int| 0 <= k < seen.len() && seen[k] == x;
                    assert(old_seen[k] == x);
                }
                if before.contains(x) {
                    let k = choose|k: int| 0 <= k < before.len() && before[k] == x;
                    assert(out@[k] == x);
                }
                if out@.contains(x) && !before.contains(x) {
                    let k = choose|k: int| 0 <= k < out@.len() && out@[k] == x;
                    if k < before.len() {
                        assert(before[k] == x);
                    }
                }
                if x == t && listed(tables@, tier_table(t)) {
                    assert(out@[before.len() as int] == t);
                }
            }
        }
        i = i + 1;
    }
    proof {
        assert(all@.take(3) =~= all@);
        assert(all@[0] == RollupTier::M5 && all@[1] == RollupTier::H1 && all@[2]
            == RollupTier::D1);
        assert forall|t: RollupTier| all@.contains(t) <==> t != RollupTier::Raw by {
            if all@.contains(t) {
                let k = choose|k: int| 0 <= k < all@.len() && all@[k] == t;
            }
        }
    }
    out
}

/// The tier that `select_tier` picks among the registered ones is `tier_for`.
proof fn selected_is_tier_for(
    t: RollupTier,
    tables: Seq<String>,
    resolution_ns: int,
    available: Seq<RollupTier>,
)
    requires
        forall|x: RollupTier| #[trigger]
            available.contains(x) <==> x != RollupTier::Raw && listed(tables, tier_table(x)),
        is_selected(t, resolution_ns, available),
    ensures
        t == tier_for(tables, resolution_ns),
{
    let want = tier_for(tables, resolution_ns);
    if want != RollupTier::Raw {
        assert(available.contains(want));
        let i = choose|i: int| 0 <= i < available.len() && available[i] == want;
        assert(serves(available[i], resolution_ns));
    }
    assert forall|i: int|
        0 <= i < available.len() && serves(
            #[trigger] available[i],
            resolution_ns,
        ) implies want != RollupTier::Raw && available[i].width() <= want.width() by {
        assert(available.contains(available[i]));
    }
    assert(is_selected(want, resolution_ns, available));
    selection_is_unique(t, want, resolution_ns, available);
}

/// The single place where tiers are chosen: resolve the ordered, time-disjoint
/// `(table, lo, hi)` source windows covering `[start_ns, end_ns]`, given the names
/// of the registered tables. `Capability::Raw` gives a single raw window.
/// Otherwise the sealed part reads the coarsest registered tier whose resolution is
/// at most `resolution_ns`, and the trailing live part, which no tier covers,
/// reads raw `metrics`.
///
/// The boundary is a day before `now_ns`, the wall clock, not a day before
/// `end_ns`: a historical view over a long-sealed day still reads the tier.
pub fn resolve_metric_windows(
    tables: &Vec<String>,
    start_ns: i64,
    end_ns: i64,
    resolution_ns: i64,
    capability: Capability,
    now_ns: i64,
) -> (r: Vec<MetricWindow>)
    ensures
        windows_view(r@) == source_windows(
            tables@,
            start_ns as int,
            end_ns as int,
            resolution_ns as int,
            capability,
            now_ns as int,
        ),
{
    let mut windows: Vec<MetricWindow> = Vec::new();
    let ghost want = source_windows(
        tables@,
        start_ns as int,
        end_ns as int,
        resolution_ns as int,
        capability,
        now_ns as int,
    );
    let available = available_tiers(tables);
    let tier = select_tier(resolution_ns, available.as_slice());
    proof {
        selected_is_tier_for(tier, tables@, resolution_ns as int, available@);
    }
    if capability == Capability::Raw || tier == RollupTier::Raw || now_ns < i64::MIN
        + SEALED_OFFSET_NS || start_ns > now_ns - SEALED_OFFSET_NS {
        windows.push((owned("metrics"), start_ns, end_ns));
        assert(windows_view(windows@) =~= want);
        return windows;
    }
    let sealed_ns: i64 = now_ns - SEALED_OFFSET_NS;
    let tier_name = joined("metrics_", tier.label());
    let hi = if end_ns < sealed_ns {
        end_ns
    } else {
        sealed_ns
    };
    windows.push((tier_name, start_ns, hi));
    if end_ns > sealed_ns {
        windows.push((owned("metrics"), sealed_ns + 1, end_ns));
    }
    assert(windows_view(windows@) =~= want);
    windows
}

/// Whether a moment lies in a window.
pub open spec fn in_window(w: (Seq<char>, int, int), t: int) -> bool {
    w.1 <= t <= w.2
}

/// The windows cover the span, and nothing else: the first starts where it starts,
/// the last ends where it ends, and each starts right after the one before.
pub proof fn windows_tile_the_span(
    tables: Seq<String>,
    start: int,
    end: int,
    resolution_ns: int,
    capability: Capability,
    now: int,
)
    requires
        start <= end,
    ensures
        ({
            let w = source_windows(tables, start, end, resolution_ns, capability, now);
            &&& w.len() > 0
            &&& w[0].1 == start
            &&& w.last().2 == end
            &&& forall|i: int| 0 <= i < w.len() ==> (#[trigger] w[i]).1 <= w[i].2
            &&& forall|i: int|
                #![trigger w[i]]
                0 <= i && i + 1 < w.len() ==> w[i + 1].1 == w[i].2 + 1
        }),
{
}

/// Each moment of the span lies in exactly one window.
pub proof fn windows_are_disjoint_and_covering(
    tables: Seq<String>,
    start: int,
    end: int,
    resolution_ns: int,
    capability: Capability,
    now: int,
    t: int,
)
    requires
        start <= t <= end,
    ensures
        ({
            let w = source_windows(tables, start, end, resolution_ns, capability, now);
            exists|i: int|
                0 <= i < w.len() && in_window(#[trigger] w[i], t) && forall|j: int|
                    0 <= j < w.len() && in_window(#[trigger] w[j], t) ==> j == i
        }),
{
    let w = source_windows(tables, start, end, resolution_ns, capability, now);
    let i: int = if w.len() == 2 && t > w[0].2 {
        1
    } else {
        0
    };
    assert(in_window(w[i], t));
}

/// What is not sealed yet is never read from a tier: a window that reaches into the
/// day before now reads the raw samples.
pub proof fn live_part_is_raw(
    tables: Seq<String>,
    start: int,
    end: int,
    resolution_ns: int,
    capability: Capability,
    now: int,
    i: int,
)
    requires
        0 <= i < source_windows(tables, start, end, resolution_ns, capability, now).len(),
        source_windows(tables, start, end, resolution_ns, capability, now)[i].2 > now
            - SEALED_OFFSET_NS,
    ensures
        source_windows(tables, start, end, resolution_ns, capability, now)[i].0 == raw_table(),
{
}

/// An operator that no tier can answer reads the whole span raw.
pub proof fn no_capability_is_all_raw(
    tables: Seq<String>,
    start: int,
    end: int,
    resolution_ns: int,
    now: int,
)
    ensures
        source_windows(tables, start, end, resolution_ns, Capability::Raw, now) == seq![
            (raw_table(), start, end),
        ],
{
}

/// Every window reads the raw table or the table of a registered tier whose
/// resolution is at most the requested one.
pub proof fn windows_read_registered_tables(
    tables: Seq<String>,
    start: int,
    end: int,
    resolution_ns: int,
    capability: Capability,
    now: int,
    i: int,
)
    requires
        0 <= i < source_windows(tables, start, end, resolution_ns, capability, now).len(),
    ensures
        ({
            let t = source_windows(tables, start, end, resolution_ns, capability, now)[i].0;
            t == raw_table() || exists|tier: RollupTier|
                t == tier_table(tier) && #[trigger] can_serve(tables, tier, resolution_ns)
        }),
{
    let tier = tier_for(tables, resolution_ns);
    if tier != RollupTier::Raw {
        assert(can_serve(tables, tier, resolution_ns));
    }
}

/// Anchor an instant query's evaluation time: an omitted `time` arrives as
/// `i64::MAX` ("latest") and becomes the wall clock; an explicit time stays.
pub fn instant_anchor(time_ns: i64, now_ns: i64) -> (r: i64)
    ensures
        r == anchored(time_ns as int, now_ns as int),
{
    if time_ns == i64::MAX {
        now_ns
    } else {
        time_ns
    }
}

/// The evaluation time of an instant query.
pub open spec fn anchored(time: int, now: int) -> int {
    if time == i64::MAX {
        now
    } else {
        time
    }
}

/// The interval of files that a scan has to open.
#[derive(Debug, Clone, Copy, PartialEq, Eq, Structural)]
pub struct QueryScope {
    pub lo_ns: i64,
    pub hi_ns: i64,
}

/// The window by which the result of an instant query is cached: the anchored
/// evaluation point.
pub fn instant_scope(time_ns: i64, now_ns: i64) -> (r: QueryScope)
    ensures
        r.lo_ns == anchored(time_ns as int, now_ns as int),
        r.hi_ns == anchored(time_ns as int, now_ns as int),
{
    let anchor = instant_anchor(time_ns, now_ns);
    QueryScope { lo_ns: anchor, hi_ns: anchor }
}

} // verus!

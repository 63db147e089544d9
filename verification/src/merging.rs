//! Laws of the parts of a range query: which are scanned, and how they make one answer.
use crate::aggregate::aligned_list;
use crate::eval::RangeWindow;
use crate::grid::{is_timeline, within, Point};
use crate::labels::rendered;
use crate::number::Number;
use crate::rank::{
    comes_before, is_ranking, is_selection, kept_count, list_view, select_top,
    selection_keeps_the_best, top_series, Score,
};
use crate::range::{
    all_scans, column_role, finish_range, kept_series, merge_shard, scan_windows, scans_view,
    shard_scans, timelines, with_point, ColumnRole, ScanWindow, Shard,
};
use crate::series::{series_list, series_view, RangeSeries, RangeVal, Series, SeriesView};
use crate::windows::{windows_view, MetricWindow};
use vstd::prelude::*;

verus! {

/// The points of a series of a set; none where the set lacks the series.
pub open spec fn points_in<V>(m: Map<Seq<char>, SeriesView<V>>, key: Seq<char>) -> Seq<Point<V>> {
    if m.dom().contains(key) {
        m[key].points
    } else {
        Seq::empty()
    }
}

proof fn points_inside_stay<V>(points: Seq<Point<V>>, lo: int, hi: int)
    ensures
        within(points, lo, hi) == points.filter(|p: Point<V>| lo <= p.0 <= hi),
    decreases points.len(),
{
    reveal(Seq::filter);
    if points.len() > 0 {
        points_inside_stay(points.drop_last(), lo, hi);
    }
}

/// Merging a vector adds, behind the points of each series, those of the same series in the
/// vector that lie within the window, both of its ends included, and nothing else. Every
/// series keeps its labels.
pub proof fn vectors_are_appended<V: Number>(
    m: RangeSeries<V>,
    part: RangeSeries<V>,
    win: RangeWindow,
    r: RangeSeries<V>,
    key: Seq<char>,
)
    requires
        call_ensures(merge_shard::<V>, (m, RangeVal::Vector(part), win), r),
    ensures
        ({
            let (before, new, after) = (series_view(m@), series_view(part@), series_view(r@));
            &&& points_in(after, key) == points_in(before, key) + points_in(new, key).filter(
                |p: Point<V>| win.start <= p.0 <= win.end,
            )
            &&& after.dom().contains(key) <==> before.dom().contains(key) || new.dom().contains(
                key,
            )
            &&& before.dom().contains(key) ==> after[key].labels == before[key].labels
            &&& !before.dom().contains(key) && new.dom().contains(key) ==> after[key].labels
                == new[key].labels
        }),
{
    let (before, new, after) = (series_view(m@), series_view(part@), series_view(r@));
    let inside = |p: Point<V>| win.start <= p.0 <= win.end;
    points_inside_stay(points_in(new, key), win.start as int, win.end as int);
    assert(inside =~= |p: Point<V>| win.start as int <= p.0 <= win.end as int);
    let added = points_in(new, key).filter(inside);
    assert(points_in(before, key) + Seq::<Point<V>>::empty() =~= points_in(before, key));
    assert(Seq::<Point<V>>::empty() + added =~= added);
    if !new.dom().contains(key) {
        reveal(Seq::filter);
        assert(added =~= Seq::empty());
    }
}

/// Merging a constant adds it at both ends of the window to the one series without labels,
/// and changes no other series. Returns the key of that series.
pub proof fn constants_are_appended<V: Number>(
    m: RangeSeries<V>,
    x: V,
    win: RangeWindow,
    r: RangeSeries<V>,
) -> (key: Seq<char>)
    requires
        call_ensures(merge_shard::<V>, (m, RangeVal::Scalar(x), win), r),
    ensures
        ({
            let (before, after) = (series_view(m@), series_view(r@));
            &&& after.dom().contains(key)
            &&& before.dom().contains(key) || after[key].labels == Map::<
                Seq<char>,
                Seq<char>,
            >::empty()
            &&& points_in(after, key) == points_in(before, key) + seq![
                (win.start, x),
                (win.end, x),
            ]
            &&& forall|other: Seq<char>|
                other != key ==> (#[trigger] after.dom().contains(other)
                    <==> before.dom().contains(other)) && (before.dom().contains(other)
                    ==> after[other] == before[other])
        }),
{
    let key = rendered(Map::<Seq<char>, Seq<char>>::empty());
    let (before, after) = (series_view(m@), series_view(r@));
    let once = with_point(before, Map::empty(), (win.start, x));
    assert(after == with_point(once, Map::empty(), (win.end, x)));
    assert(points_in(after, key) =~= points_in(before, key) + seq![(win.start, x), (win.end, x)]);
    key
}

/// What is scanned for a window of a table: its shards, each with what it reads and what it
/// emits; or, where there are none, the whole window, which is read from so much earlier as
/// is looked back, or from the earliest time there is.
pub open spec fn scans_of(
    w: (Seq<char>, int, int),
    shards: Seq<Shard>,
    lookback: int,
) -> Seq<(Seq<char>, RangeWindow)> {
    if shards.len() > 0 {
        shards.map_values(
            |s: Shard|
                (
                    w.0,
                    RangeWindow {
                        scan_start: s.query_start_ns,
                        start: s.start_ns,
                        end: s.end_ns,
                    },
                ),
        )
    } else {
        seq![
            (
                w.0,
                RangeWindow {
                    scan_start: if w.1 - lookback < i64::MIN {
                        i64::MIN
                    } else {
                        (w.1 - lookback) as i64
                    },
                    start: w.1 as i64,
                    end: w.2 as i64,
                },
            ),
        ]
    }
}

proof fn scans_follow_each_other(
    w: Seq<(Seq<char>, int, int)>,
    shards: Seq<Vec<Shard>>,
    lookback: int,
)
    ensures
        all_scans(w, shards, lookback) == Seq::new(
            w.len(),
            |i: int|
                scans_of(
                    w[i],
                    if i < shards.len() {
                        shards[i]@
                    } else {
                        Seq::empty()
                    },
                    lookback,
                ),
        ).flatten_alt(),
    decreases w.len(),
{
    let part = |i: int|
        scans_of(
            w[i],
            if i < shards.len() {
                shards[i]@
            } else {
                Seq::empty()
            },
            lookback,
        );
    let parts = Seq::new(w.len(), part);
    if w.len() == 0 {
        assert(parts.flatten_alt() =~= Seq::empty());
    } else {
        let rest = w.drop_last();
        scans_follow_each_other(rest, shards, lookback);
        let before = Seq::new(
            rest.len(),
            |i: int|
                scans_of(
                    rest[i],
                    if i < shards.len() {
                        shards[i]@
                    } else {
                        Seq::empty()
                    },
                    lookback,
                ),
        );
        assert(parts.drop_last() =~= before);
        let i = w.len() - 1;
        if i < shards.len() && shards[i]@.len() > 0 {
            assert(parts.last() =~= shard_scans(w.last().0, shards[i]@));
        } else {
            let whole = all_scans(w, shards, lookback);
            assert(whole =~= before.flatten_alt() + parts.last());
        }
    }
}

/// The windows are scanned in their order, each in its own shards, or whole where it has
/// none.
pub proof fn windows_are_scanned_in_order(
    windows: &Vec<MetricWindow>,
    shards: &Vec<Vec<Shard>>,
    lookback: i64,
    r: Vec<ScanWindow>,
)
    requires
        lookback >= 0,
        call_ensures(scan_windows, (windows, shards, lookback), r),
    ensures
        ({
            let w = windows_view(windows@);
            scans_view(r@) == Seq::new(
                w.len(),
                |i: int|
                    scans_of(
                        w[i],
                        if i < shards@.len() {
                            shards@[i]@
                        } else {
                            Seq::empty()
                        },
                        lookback as int,
                    ),
            ).flatten_alt()
        }),
{
    scans_follow_each_other(windows_view(windows@), shards@, lookback as int);
}

/// The answer of a range query holds the series into which its parts were merged, each with
/// the points of its timeline: all of them in their order, or the ones that rank first; and
/// then carried onto the grid. Returns the timelines, and those that are kept.
pub proof fn answers_are_ranked_timelines<V: Number>(
    m: &RangeSeries<V>,
    topk: Option<(i64, bool)>,
    start: i64,
    end: i64,
    step: i64,
    out: Vec<Series<V>>,
) -> (r: (Seq<SeriesView<V>>, Seq<SeriesView<V>>))
    requires
        call_ensures(finish_range::<V>, (m, topk, start, end, step), out),
    ensures
        ({
            let (s, lines, kept) = (series_list(m.listing()), r.0, r.1);
            &&& lines.len() == s.len()
            &&& forall|i: int|
                0 <= i < s.len() ==> (#[trigger] lines[i]).labels == s[i].labels && is_timeline(
                    s[i].points,
                    lines[i].points,
                )
            &&& topk is None ==> kept == lines
            &&& match topk {
                Some((n, top)) => top_series(Score::Peak, n as int, top, lines, kept),
                None => true,
            }
            &&& list_view(out@) == aligned_list(kept, start as int, end as int, step as int)
        }),
{
    let s = series_list(m.listing());
    let rank = match topk {
        Some(k) => Some((k.0 as int, k.1)),
        None => None,
    };
    choose|lines: Seq<SeriesView<V>>, kept: Seq<SeriesView<V>>| #[trigger]
        timelines(s, lines) && #[trigger] kept_series(rank, lines, kept) && list_view(out@)
            == aligned_list(kept, start as int, end as int, step as int)
}

/// Of items with one rank those that come first are kept, and stay in their order.
pub proof fn ties_keep_their_order(
    ranks: &Vec<i64>,
    n: i64,
    top: bool,
    chosen: Vec<usize>,
    i: int,
    j: int,
    other: int,
)
    requires
        call_ensures(select_top, (ranks, n, top), chosen),
        ranks@.len() <= usize::MAX,
        0 <= i < j < chosen@.len(),
    ensures
        chosen@[i] < ranks@.len(),
        chosen@[j] < ranks@.len(),
        ranks@[chosen@[i] as int] == ranks@[chosen@[j] as int] ==> chosen@[i] < chosen@[j],
        0 <= other < ranks@.len() && !chosen@.contains(other as usize) && ranks@[chosen@[i] as int]
            == ranks@[other] ==> chosen@[i] < other,
{
    let order = choose|order: Seq<usize>| #[trigger]
        is_ranking(ranks@, top, ranks@.len() as int, order) && chosen@ == order.take(
            kept_count(n as int, ranks@.len()),
        );
    assert(chosen@[i] == order[i] && chosen@[j] == order[j]);
    assert(comes_before(ranks@, top, order[i] as int, order[j] as int));
    assert(chosen@.contains(chosen@[i]));
    assert(is_selection(ranks@, top, n as int, chosen@));
    if 0 <= other < ranks@.len() && !chosen@.contains(other as usize) {
        selection_keeps_the_best(ranks@, top, n as int, chosen@, chosen@[i] as int, other);
    }
}

/// The columns of a result with values, times, ranks and raw names are no labels; the
/// attributes give theirs; the normalized name is the metric name, and every other column
/// is the label with its own name.
pub proof fn columns_are_labels(n: &str, r: ColumnRole)
    requires
        call_ensures(column_role, (n,), r),
    ensures
        n@ == "v"@ || n@ == "time_unix_nano"@ || n@ == "rn"@ || n@ == "name"@ ==> r is Skipped,
        n@ == "attributes"@ ==> r is Attributes,
        n@ == "prom_name"@ ==> r is Label && r->Label_0@ == "__name__"@,
        ({
            &&& n@ != "v"@
            &&& n@ != "time_unix_nano"@
            &&& n@ != "rn"@
            &&& n@ != "name"@
            &&& n@ != "attributes"@
            &&& n@ != "prom_name"@
        }) ==> r is Label && r->Label_0@ == n@,
{
    reveal_strlit("v");
    reveal_strlit("time_unix_nano");
    reveal_strlit("rn");
    reveal_strlit("name");
    reveal_strlit("attributes");
    reveal_strlit("prom_name");
    assert("v"@.len() == 1 && "time_unix_nano"@.len() == 14 && "rn"@.len() == 2);
    assert("name"@.len() == 4 && "attributes"@.len() == 10 && "prom_name"@.len() == 9);
}

} // verus!

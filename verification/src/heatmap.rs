//! Classic `_bucket{le}` heatmaps: cumulative counts per bucket bound, and their rates.
use crate::classify::{BucketSpec, BucketView};
use crate::grid::Point;
use crate::histogram::{
    are_groups, are_times, group_texts, group_texts_are_groups, read_rows, read_view, rows_read,
    slot_times, slot_times_are_times, timed, total, total_grows, HistRow, ReadRow, RowView,
};
use crate::labels::{rendered, Labels};
use crate::number::{Arithmetic, Comparison, Number};
use crate::operators::{calculated, compared, counted, summed};
use crate::rank::list_view;
use crate::series::{LabelMap, Series, SeriesView};
use crate::slots::{
    first_row, first_row_is_in_range, group_rows, groups_hold, rows_are_in_range, rows_at, rows_view,
    slots_hold, RowKey, Slot,
};
use crate::text::owned;
use crate::textmap::{ascending, mapping, mapping_at};
use vstd::prelude::*;

verus! {

/// A cumulative count of one row: under the row's labels and the bucket's bound.
struct Entry<V> {
    labels: Labels,
    t: i64,
    value: V,
}

/// A cumulative count, as a value.
pub struct EntryView<V> {
    pub labels: LabelMap,
    pub t: i64,
    pub value: V,
}

impl<V> View for Entry<V> {
    type V = EntryView<V>;

    closed spec fn view(&self) -> EntryView<V> {
        EntryView { labels: self.labels@, t: self.t, value: self.value }
    }
}

spec fn entries_view<V>(s: Seq<Entry<V>>) -> Seq<EntryView<V>> {
    Seq::new(s.len(), |i: int| s[i]@)
}

/// Whether `le` is the text of the bound of bucket `i`: that of the bound, or, where
/// there is none, infinity.
pub open spec fn is_le<V: Number>(bounds: Seq<V>, i: int, le: Seq<char>) -> bool {
    if i < bounds.len() {
        exists|s: String| #[trigger] call_ensures(V::text, (bounds[i],), s) && s@ == le
    } else {
        le == "+Inf"@
    }
}

/// Whether `e` is the cumulative count of bucket `i` of a row, up to whose
/// predecessor `before` was counted.
pub open spec fn is_entry<V: Number>(d: RowView<V>, i: int, before: V, e: EntryView<V>) -> bool {
    &&& e.t == d.t
    &&& calculated(Arithmetic::Add, before, d.counts[i], e.value)
    &&& exists|le: Seq<char>| #[trigger]
        is_le(d.bounds, i, le) && e.labels == d.labels.insert("le"@, le)
}

/// Whether `out` holds the cumulative counts of a row, bucket by bucket, from zero.
pub open spec fn row_exploded<V: Number>(d: RowView<V>, out: Seq<EntryView<V>>) -> bool {
    out.len() == d.counts.len() && exists|zero: V| #[trigger]
        counted(0, zero) && row_entries(d, zero, out)
}

/// Whether the `i`-th entry is the cumulative count of its bucket, from the one before it or
/// from zero.
pub open spec fn entry_at<V: Number>(
    d: RowView<V>,
    zero: V,
    out: Seq<EntryView<V>>,
    i: int,
) -> bool {
    is_entry(
        d,
        i,
        if i == 0 {
            zero
        } else {
            out[i - 1].value
        },
        out[i],
    )
}

/// Whether the entries are the cumulative counts of the first buckets of a row.
pub open spec fn row_entries<V: Number>(d: RowView<V>, zero: V, out: Seq<EntryView<V>>) -> bool {
    forall|i: int| 0 <= i < out.len() ==> #[trigger] entry_at(d, zero, out, i)
}

/// Whether `out` holds the cumulative counts of rows, row by row.
pub open spec fn exploded<V: Number>(d: Seq<RowView<V>>, out: Seq<EntryView<V>>) -> bool
    decreases d.len(),
{
    if d.len() == 0 {
        out.len() == 0
    } else {
        let n = out.len() - d.last().counts.len();
        n >= 0 && exploded(d.drop_last(), out.take(n)) && row_exploded(d.last(), out.skip(n))
    }
}

fn le_text<V: Number>(bounds: &Vec<V>, i: usize) -> (r: String)
    ensures
        is_le(bounds@, i as int, r@),
{
    if i < bounds.len() {
        let s = V::text(bounds[i]);
        assert(call_ensures(V::text, (bounds@[i as int],), s));
        s
    } else {
        owned("+Inf")
    }
}

/// Add the cumulative counts of a row.
fn explode_row<V: Number>(out: Vec<Entry<V>>, row: &ReadRow<V>) -> (r: Vec<Entry<V>>)
    ensures
        r@.len() == out@.len() + row@.counts.len(),
        entries_view(r@).take(out@.len() as int) == entries_view(out@),
        row_exploded(row@, entries_view(r@).skip(out@.len() as int)),
{
    let ghost start = out@;
    let ghost k = start.len() as int;
    let mut out = out;
    let zero = V::of_count(0);
    assert(counted(0, zero));
    let mut cum = zero;
    let n: usize = row.counts.len();
    let mut i: usize = 0;
    proof {
        assert(entries_view(out@).take(k) =~= entries_view(start));
    }
    while i < n
        invariant
            n == row@.counts.len(),
            i <= n,
            out@.len() == k + i,
            k == start.len(),
            entries_view(out@).take(k) == entries_view(start),
            cum == if i == 0 {
                zero
            } else {
                out@[k + i - 1].value
            },
            row_entries(row@, zero, entries_view(out@).skip(k)),
        decreases n - i,
    {
        let ghost before = out@;
        let c = row.counts[i];
        let next = V::calculate(Arithmetic::Add, cum, c);
        assert(calculated(Arithmetic::Add, cum, row@.counts[i as int], next));
        let le = le_text(&row.bounds, i);
        let labels = row.labels.copy().with(owned("le"), le);
        let e = Entry { labels, t: row.t, value: next };
        let ghost ev = e@;
        out.push(e);
        proof {
            assert(is_le(row@.bounds, i as int, le@));
            assert(is_entry(row@, i as int, cum, ev));
            let a = entries_view(before);
            let b = entries_view(out@);
            assert(b =~= a.push(ev));
            assert(b.take(k) =~= a.take(k));
            let s = b.skip(k);
            let old_s = a.skip(k);
            assert forall|j: int| 0 <= j < s.len() implies #[trigger] entry_at(
                row@,
                zero,
                s,
                j,
            ) by {
                if j < i {
                    assert(entry_at(row@, zero, old_s, j));
                }
                if j < i {
                    assert(s[j] == old_s[j]);
                    if j > 0 {
                        assert(s[j - 1] == old_s[j - 1]);
                    }
                } else {
                    assert(s[j] == ev);
                    if j > 0 {
                        assert(s[j - 1] == before[k + i - 1]@);
                    }
                }
            }
        }
        cum = next;
        i = i + 1;
    }
    out
}

fn explode<V: Number>(rows: &Vec<ReadRow<V>>) -> (out: Vec<Entry<V>>)
    ensures
        exploded(read_view(rows@), entries_view(out@)),
{
    let ghost d = read_view(rows@);
    let mut out: Vec<Entry<V>> = Vec::new();
    let mut i: usize = 0;
    while i < rows.len()
        invariant
            d == read_view(rows@),
            i <= rows@.len(),
            exploded(d.take(i as int), entries_view(out@)),
        decreases rows.len() - i,
    {
        let ghost before = out@;
        out = explode_row(out, &rows[i]);
        proof {
            let next = d.take(i + 1);
            assert(next.drop_last() =~= d.take(i as int));
            assert(next.last() == rows@[i as int]@);
            assert(entries_view(out@).len() - next.last().counts.len() == before.len());
        }
        i = i + 1;
    }
    assert(d.take(rows@.len() as int) =~= d);
    out
}

/// The entries as they are grouped: by the text of their labels, and by time.
pub open spec fn entry_keys<V>(e: Seq<EntryView<V>>) -> Seq<(Seq<char>, i64)> {
    Seq::new(e.len(), |i: int| (rendered(e[i].labels), e[i].t))
}

fn key_entries<V>(e: &Vec<Entry<V>>) -> (r: Vec<RowKey>)
    ensures
        rows_view(r@) == entry_keys(entries_view(e@)),
{
    let mut r: Vec<RowKey> = Vec::new();
    let ghost want = entry_keys(entries_view(e@));
    let mut i: usize = 0;
    while i < e.len()
        invariant
            want == entry_keys(entries_view(e@)),
            i <= e@.len(),
            rows_view(r@) =~= want.take(i as int),
        decreases e.len() - i,
    {
        let k = (e[i].labels.key(), e[i].t);
        let ghost before = r@;
        let ghost v = (k.0@, k.1);
        assert(v == want[i as int]);
        r.push(k);
        assert(rows_view(r@) =~= rows_view(before).push(v));
        i = i + 1;
    }
    assert(want.take(e@.len() as int) =~= want);
    r
}

/// The values of the entries at the given places.
pub open spec fn entry_values<V>(e: Seq<EntryView<V>>, rows: Seq<usize>) -> Seq<V> {
    Seq::new(rows.len(), |i: int| e[rows[i] as int].value)
}

fn sum_entries<V: Number>(e: &Vec<Entry<V>>, rows: &Vec<usize>) -> (x: V)
    requires
        forall|i: int| 0 <= i < rows@.len() ==> (#[trigger] rows@[i]) < e@.len(),
    ensures
        total(entry_values(entries_view(e@), rows@), x),
{
    let ghost all = entry_values(entries_view(e@), rows@);
    let mut x = V::of_count(0);
    proof {
        assert(counted(0, x));
        assert(summed(x, all.take(0), 0, x));
        assert(total(all.take(0), x));
    }
    let mut i: usize = 0;
    while i < rows.len()
        invariant
            forall|j: int| 0 <= j < rows@.len() ==> (#[trigger] rows@[j]) < e@.len(),
            all == entry_values(entries_view(e@), rows@),
            i <= rows@.len(),
            total(all.take(i as int), x),
        decreases rows.len() - i,
    {
        let ghost before = x;
        let v = e[rows[i]].value;
        x = V::calculate(Arithmetic::Add, x, v);
        proof {
            assert(calculated(Arithmetic::Add, before, v, x));
            total_grows(all.take(i as int), before, v, x);
            assert(all.take(i + 1) =~= all.take(i as int).push(v));
        }
        i = i + 1;
    }
    assert(all.take(rows@.len() as int) =~= all);
    x
}

/// The nanoseconds from one moment to a later one, as far as they can be counted.
pub open spec fn span_ns(t0: i64, t1: i64) -> i64 {
    if t1 - t0 > i64::MAX {
        i64::MAX
    } else {
        (t1 - t0) as i64
    }
}

/// Whether `res` is the rate from one cumulative count to the next: the growth per
/// second, where a count that fell has started over; nothing where no time passed.
pub open spec fn rate_between<V: Number>(t0: i64, v0: V, t1: i64, v1: V, res: Option<V>) -> bool {
    exists|zero: V, dt: V, passed: bool|
        {
            &&& #[trigger] counted(0, zero)
            &&& #[trigger] call_ensures(V::of_nanos, (span_ns(t0, t1),), dt)
            &&& #[trigger] compared(Comparison::Greater, dt, zero, passed)
            &&& if passed {
                exists|grew: bool, delta: V|
                    {
                        &&& #[trigger] compared(Comparison::GreaterOrEqual, v1, v0, grew)
                        &&& if grew {
                            calculated(Arithmetic::Sub, v1, v0, delta)
                        } else {
                            delta == v1
                        }
                        &&& res is Some
                        &&& #[trigger] calculated(Arithmetic::Div, delta, dt, res->0)
                    }
            } else {
                res is None
            }
        }
}

fn rate<V: Number>(t0: i64, v0: V, t1: i64, v1: V) -> (res: Option<V>)
    requires
        t0 < t1,
    ensures
        rate_between(t0, v0, t1, v1, res),
{
    let zero = V::of_count(0);
    assert(counted(0, zero));
    let ns: i64 = match t1.checked_sub(t0) {
        Some(ns) => ns,
        None => i64::MAX,
    };
    let dt = V::of_nanos(ns);
    assert(call_ensures(V::of_nanos, (span_ns(t0, t1),), dt));
    let passed = V::holds(Comparison::Greater, dt, zero);
    assert(compared(Comparison::Greater, dt, zero, passed));
    if passed {
        let grew = V::holds(Comparison::GreaterOrEqual, v1, v0);
        assert(compared(Comparison::GreaterOrEqual, v1, v0, grew));
        let delta = if grew {
            V::calculate(Arithmetic::Sub, v1, v0)
        } else {
            v1
        };
        let x = V::calculate(Arithmetic::Div, delta, dt);
        let res = Some(x);
        assert(calculated(Arithmetic::Div, delta, dt, res->0));
        res
    } else {
        None
    }
}

/// Whether each value is the sum of the entries of its time.
pub open spec fn cell_totals<V: Number>(
    e: Seq<EntryView<V>>,
    key: Seq<char>,
    times: Seq<i64>,
    values: Seq<V>,
) -> bool {
    values.len() == times.len() && forall|j: int|
        0 <= j < times.len() ==> total(
            entry_values(e, rows_at(entry_keys(e), key, times[j])),
            #[trigger] values[j],
        )
}

/// Whether each result is the rate to its time from the one before.
pub open spec fn rates_are<V: Number>(
    times: Seq<i64>,
    values: Seq<V>,
    results: Seq<Option<V>>,
) -> bool {
    results.len() + 1 == times.len() && forall|j: int|
        0 <= j < results.len() ==> rate_between(
            times[j],
            values[j],
            times[j + 1],
            values[j + 1],
            #[trigger] results[j],
        )
}

/// Whether `s` is the series of a bucket: with the labels of its first entry, and the
/// rate of its cumulative count at each time but the first.
pub open spec fn heat_group<V: Number>(
    e: Seq<EntryView<V>>,
    key: Seq<char>,
    s: SeriesView<V>,
) -> bool {
    match first_row(entry_keys(e), key) {
        None => false,
        Some(first) => {
            &&& s.labels == e[first].labels
            &&& exists|times: Seq<i64>, values: Seq<V>, results: Seq<Option<V>>| #[trigger]
                are_times(entry_keys(e), key, times) && #[trigger] cell_totals(
                    e,
                    key,
                    times,
                    values,
                ) && #[trigger] rates_are(times, values, results) && s.points == timed(
                    times.skip(1),
                    results,
                )
        },
    }
}

/// Whether `out` holds the series of the buckets, in ascending order of their texts.
pub open spec fn heat_series<V: Number>(e: Seq<EntryView<V>>, out: Seq<SeriesView<V>>) -> bool {
    exists|groups: Seq<Seq<char>>| #[trigger]
        are_groups(entry_keys(e), groups) && out.len() == groups.len() && forall|i: int|
            0 <= i < groups.len() ==> heat_group(e, groups[i], #[trigger] out[i])
}

fn cell_values<V: Number>(e: &Vec<Entry<V>>, slots: &Vec<Slot>, Ghost(key): Ghost<Seq<char>>) -> (r:
    Vec<V>)
    requires
        slots_hold(entry_keys(entries_view(e@)), key, slots@),
    ensures
        cell_totals(entries_view(e@), key, slot_times(slots@), r@),
{
    let ghost view = entries_view(e@);
    let ghost keys = entry_keys(view);
    let ghost times = slot_times(slots@);
    let n: usize = e.len();
    let mut r: Vec<V> = Vec::new();
    let mut i: usize = 0;
    while i < slots.len()
        invariant
            n == e@.len(),
            view == entries_view(e@),
            keys == entry_keys(view),
            times == slot_times(slots@),
            slots_hold(keys, key, slots@),
            i <= slots@.len(),
            r@.len() == i,
            forall|j: int|
                0 <= j < i ==> total(
                    entry_values(view, rows_at(keys, key, times[j])),
                    #[trigger] r@[j],
                ),
        decreases slots.len() - i,
    {
        let ghost t = slots@[i as int].t;
        proof {
            rows_are_in_range(keys, key, t);
            assert(slots@[i as int].rows@ == rows_at(keys, key, t));
            assert(times[i as int] == t);
        }
        let x = sum_entries(e, &slots[i].rows);
        r.push(x);
        i = i + 1;
    }
    r
}

fn rate_points<V: Number>(slots: &Vec<Slot>, values: &Vec<V>) -> (r: Vec<Point<V>>)
    requires
        values@.len() == slots@.len(),
        slots@.len() > 0,
        forall|i: int, j: int|
            0 <= i < j < slots@.len() ==> (#[trigger] slots@[i]).t < (#[trigger] slots@[j]).t,
    ensures
        exists|results: Seq<Option<V>>| #[trigger]
            rates_are(slot_times(slots@), values@, results) && r@ == timed(
                slot_times(slots@).skip(1),
                results,
            ),
{
    let ghost times = slot_times(slots@);
    let ghost later = times.skip(1);
    let ghost mut results: Seq<Option<V>> = Seq::empty();
    let mut out: Vec<Point<V>> = Vec::new();
    let mut i: usize = 1;
    while i < slots.len()
        invariant
            times == slot_times(slots@),
            later == times.skip(1),
            values@.len() == slots@.len(),
            forall|a: int, b: int|
                0 <= a < b < slots@.len() ==> (#[trigger] slots@[a]).t < (#[trigger] slots@[b]).t,
            1 <= i <= slots@.len(),
            results.len() == i - 1,
            forall|j: int|
                0 <= j < results.len() ==> rate_between(
                    times[j],
                    values@[j],
                    times[j + 1],
                    values@[j + 1],
                    #[trigger] results[j],
                ),
            out@ == timed(later.take(i - 1), results),
        decreases slots.len() - i,
    {
        let t0 = slots[i - 1].t;
        let t1 = slots[i].t;
        assert(slots@[i - 1].t < slots@[i as int].t);
        let res = rate(t0, values[i - 1], t1, values[i]);
        let ghost old_results = results;
        proof {
            results = results.push(res);
            assert(results.drop_last() =~= old_results);
            assert(later.take(i as int).drop_last() =~= later.take(i - 1));
            assert(later.take(i as int).last() == t1);
            assert forall|j: int| 0 <= j < results.len() implies rate_between(
                times[j],
                values@[j],
                times[j + 1],
                values@[j + 1],
                #[trigger] results[j],
            ) by {
                if j < i - 1 {
                    assert(results[j] == old_results[j]);
                }
            }
        }
        if let Some(x) = res {
            out.push((t1, x));
        }
        i = i + 1;
    }
    assert(later.take(slots@.len() - 1) =~= later);
    assert(rates_are(times, values@, results));
    out
}

/// The heatmap series of the entries.
fn heat_of_entries<V: Number>(e: &Vec<Entry<V>>) -> (out: Vec<Series<V>>)
    ensures
        heat_series(entries_view(e@), list_view(out@)),
{
    let ghost view = entries_view(e@);
    let ghost keys = entry_keys(view);
    let rows = key_entries(e);
    let groups = group_rows(&rows);
    let n: usize = groups.len();
    let ghost l = groups.listing();
    let ghost names = group_texts(l);
    proof {
        group_texts_are_groups(keys, l);
    }
    let mut out: Vec<Series<V>> = Vec::new();
    let mut i: usize = 0;
    while i < n
        invariant
            view == entries_view(e@),
            keys == entry_keys(view),
            l == groups.listing(),
            names == group_texts(l),
            ascending(l),
            groups_hold(keys, mapping(l)),
            i <= n == l.len(),
            out@.len() == i,
            forall|j: int| 0 <= j < i ==> heat_group(view, names[j], (#[trigger] out@[j])@),
        decreases n - i,
    {
        let (key, group) = groups.at(i);
        proof {
            mapping_at(l, i as int);
            assert(mapping(l)[key@] == *group);
            first_row_is_in_range(keys, key@);
            crate::slots::first_row_has_rows(keys, key@);
            assert(view[group.first as int] == e@[group.first as int]@);
            assert(crate::slots::has_slot(group.slots@, keys[group.first as int].1));
        }
        let values = cell_values(e, &group.slots, Ghost(key@));
        let points = rate_points(&group.slots, &values);
        let s = Series { labels: e[group.first].labels.copy(), points };
        proof {
            slot_times_are_times(keys, key@, group.slots@);
            assert(names[i as int] == key@);
            assert(heat_group(view, key@, s@));
        }
        out.push(s);
        i = i + 1;
    }
    proof {
        let o = list_view(out@);
        assert forall|j: int| 0 <= j < names.len() implies heat_group(
            view,
            names[j],
            #[trigger] o[j],
        ) by {
            assert(o[j] == out@[j]@);
        }
    }
    out
}

/// Whether `out` is what a heatmap query gives for its rows.
pub open spec fn heatmap_answer<V: Number>(
    b: BucketView,
    rows: Seq<HistRow>,
    out: Seq<SeriesView<V>>,
) -> bool {
    exists|d: Seq<RowView<V>>, e: Seq<EntryView<V>>|
        {
            &&& #[trigger] rows_read(b.group_by, rows, d)
            &&& #[trigger] exploded(d, e)
            &&& heat_series(e, out)
        }
}

/// Serve a `_bucket`-by-`le` heatmap from the rows of array histograms: explode each
/// row to per-`le` cumulative counts, then emit a per-`(le, G)` rate series
/// (consecutive-sample delta, counter-reset aware).
pub fn handle_bucket_heatmap<V: Number>(spec: &BucketSpec, rows: &Vec<HistRow>) -> (out: Vec<
    Series<V>,
>)
    ensures
        heatmap_answer(spec@, rows@, list_view(out@)),
{
    let d: Vec<ReadRow<V>> = read_rows(&spec.group_by, rows);
    assert(rows_read(spec@.group_by, rows@, read_view(d@)));
    let e = explode(&d);
    heat_of_entries(&e)
}

} // verus!

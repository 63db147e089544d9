//! Classic histograms from array histograms: quantiles and heatmaps over rows of
//! bucket counts and bounds.
use crate::classify::{HistSpec, HistView};
use crate::grid::Point;
use crate::labels::{rendered, Labels};
use crate::matching::present;
use crate::number::{Arithmetic, Number};
use crate::operators::{
    calculated, counted, histogram_quantile, is_quantile, summed,
};
use crate::plan::{nameless_histogram, Partition, TimeTest};
use crate::promql::Selector;
use crate::rank::{keep_top, list_view, top_series, Score};
use crate::selector::{
    copied_tests, exact_name, exact_name_test, matcher_tests, tests_of, tests_view, LabelTest,
    NameTest, NameView, TestView,
};
use crate::series::{
    put, put_series, samples_push, samples_view, series_view, LabelMap, RangeSeries, Sample, Series,
    SeriesView,
};
use crate::slots::{
    first_row, first_row_is_in_range, group_rows, groups_hold, has_slot, rows_are_in_range, rows_at,
    rows_view, slots_hold, RowGroup, RowKey, Slot,
};
use crate::text::{among, owned, texts, texts_ascend};
use crate::textmap::{has_key, mapping, mapping_at, place_of, TextMap};
use crate::windows::{
    anchored, instant_anchor, resolve_metric_windows, source_windows, window_view, windows_view,
    Capability, QueryScope,
};
use vstd::prelude::*;

verus! {

/// The doubles of a JSON array of numbers, as their bits; nothing where the text is
/// no such array.
pub uninterp spec fn json_doubles(json: Seq<char>) -> Option<Seq<u64>>;

/// `serde_json::from_str` for a list of numbers, each as the bits of its double.
/// Claimed: what is read is a function of the text alone.
#[verifier::external_body]
fn read_doubles(json: &str) -> (r: Option<Vec<u64>>)
    ensures
        r is Some <==> json_doubles(json@) is Some,
        r matches Some(bits) ==> json_doubles(json@) == Some(bits@),
{
    let numbers: Vec<serde_json::Number> = serde_json::from_str(json).ok()?;
    numbers.iter().map(|n| n.as_f64().map(|x| x.to_bits())).collect()
}

/// The bits of the doubles of a nullable JSON array; none where it is null or no
/// array of numbers.
pub open spec fn doubles_of(json: Option<String>) -> Seq<u64> {
    match json {
        None => Seq::empty(),
        Some(t) => match json_doubles(t@) {
            Some(bits) => bits,
            None => Seq::empty(),
        },
    }
}

/// Whether the values are those of the bits.
pub open spec fn are_doubles<V: Number>(bits: Seq<u64>, out: Seq<V>) -> bool {
    out.len() == bits.len() && forall|i: int|
        0 <= i < bits.len() ==> call_ensures(V::of_bits, (bits[i],), #[trigger] out[i])
}

/// Parse a JSON array string (`"[1,2,3]"`); null and anything else give no values.
pub fn parse_f64_array<V: Number>(json: &Option<String>) -> (out: Vec<V>)
    ensures
        are_doubles(doubles_of(*json), out@),
{
    let mut out: Vec<V> = Vec::new();
    match json {
        None => out,
        Some(t) => match read_doubles(t.as_str()) {
            None => out,
            Some(bits) => {
                let mut i: usize = 0;
                while i < bits.len()
                    invariant
                        i <= bits@.len(),
                        out@.len() == i,
                        forall|j: int|
                            0 <= j < i ==> call_ensures(V::of_bits, (bits@[j],), #[trigger] out@[j]),
                    decreases bits.len() - i,
                {
                    let x = V::of_bits(bits[i]);
                    out.push(x);
                    i = i + 1;
                }
                out
            },
        },
    }
}

/// A row of a histogram query: nullable columns, the labels in the order in which
/// they are grouped by.
#[derive(Debug)]
pub struct HistRow {
    pub time: Option<i64>,
    pub counts: Option<String>,
    pub bounds: Option<String>,
    pub labels: Vec<Option<String>>,
}

/// Whether a row takes part: it has a time, and counts.
pub open spec fn is_usable(row: HistRow) -> bool {
    row.time is Some && doubles_of(row.counts).len() > 0
}

/// The labels of a row: of the names that have a value, a later one in place of an
/// earlier one of the same name.
pub open spec fn row_labels(names: Seq<Seq<char>>, values: Seq<Option<String>>) -> LabelMap
    decreases names.len(),
{
    if names.len() == 0 {
        Map::empty()
    } else {
        let rest = row_labels(names.drop_last(), values);
        let i = names.len() - 1;
        if i < values.len() {
            match values[i] {
                Some(v) => rest.insert(names.last(), v@),
                None => rest,
            }
        } else {
            rest
        }
    }
}

fn labels_of_row(names: &Vec<String>, values: &Vec<Option<String>>) -> (r: Labels)
    ensures
        r@ == row_labels(texts(names@), values@),
{
    let mut r = Labels::new();
    let ghost all = texts(names@);
    let mut i: usize = 0;
    while i < names.len()
        invariant
            all == texts(names@),
            i <= names@.len(),
            r@ == row_labels(all.take(i as int), values@),
        decreases names.len() - i,
    {
        proof {
            assert(all.take(i + 1).drop_last() =~= all.take(i as int));
            assert(all.take(i + 1).last() == names@[i as int]@);
        }
        if i < values.len() {
            if let Some(v) = &values[i] {
                r = r.with(owned(names[i].as_str()), owned(v.as_str()));
            }
        }
        i = i + 1;
    }
    assert(all.take(names@.len() as int) =~= all);
    r
}

/// A row that takes part, read.
pub struct ReadRow<V> {
    pub t: i64,
    pub labels: Labels,
    pub counts: Vec<V>,
    pub bounds: Vec<V>,
}

/// A row that takes part, as a value.
pub struct RowView<V> {
    pub t: i64,
    pub labels: LabelMap,
    pub counts: Seq<V>,
    pub bounds: Seq<V>,
}

impl<V> View for ReadRow<V> {
    type V = RowView<V>;

    open spec fn view(&self) -> RowView<V> {
        RowView { t: self.t, labels: self.labels@, counts: self.counts@, bounds: self.bounds@ }
    }
}

/// Rows that were read, as values.
pub open spec fn read_view<V>(s: Seq<ReadRow<V>>) -> Seq<RowView<V>> {
    Seq::new(s.len(), |i: int| s[i]@)
}

/// Whether a row was read as `d`.
pub open spec fn row_read<V: Number>(names: Seq<Seq<char>>, row: HistRow, d: RowView<V>) -> bool {
    &&& Some(d.t) == row.time
    &&& d.labels == row_labels(names, row.labels@)
    &&& are_doubles(doubles_of(row.counts), d.counts)
    &&& are_doubles(doubles_of(row.bounds), d.bounds)
}

/// Whether the rows that take part were read as `out`, in their order.
pub open spec fn rows_read<V: Number>(
    names: Seq<Seq<char>>,
    rows: Seq<HistRow>,
    out: Seq<RowView<V>>,
) -> bool
    decreases rows.len(),
{
    if rows.len() == 0 {
        out.len() == 0
    } else if is_usable(rows.last()) {
        out.len() > 0 && rows_read(names, rows.drop_last(), out.drop_last()) && row_read(
            names,
            rows.last(),
            out.last(),
        )
    } else {
        rows_read(names, rows.drop_last(), out)
    }
}

pub(crate) fn read_rows<V: Number>(names: &Vec<String>, rows: &Vec<HistRow>) -> (out: Vec<ReadRow<V>>)
    ensures
        rows_read(texts(names@), rows@, read_view(out@)),
        forall|i: int| 0 <= i < out@.len() ==> (#[trigger] out@[i]).counts@.len() > 0,
{
    let mut out: Vec<ReadRow<V>> = Vec::new();
    let mut i: usize = 0;
    while i < rows.len()
        invariant
            i <= rows@.len(),
            rows_read(texts(names@), rows@.take(i as int), read_view(out@)),
            forall|j: int| 0 <= j < out@.len() ==> (#[trigger] out@[j]).counts@.len() > 0,
        decreases rows.len() - i,
    {
        proof {
            assert(rows@.take(i + 1).drop_last() =~= rows@.take(i as int));
            assert(rows@.take(i + 1).last() == rows@[i as int]);
        }
        let row = &rows[i];
        if let Some(t) = row.time {
            let counts: Vec<V> = parse_f64_array(&row.counts);
            if counts.len() > 0 {
                let bounds: Vec<V> = parse_f64_array(&row.bounds);
                let d = ReadRow { t, labels: labels_of_row(names, &row.labels), counts, bounds };
                let ghost before = out@;
                let ghost v = d@;
                out.push(d);
                proof {
                    assert(read_view(out@) =~= read_view(before).push(v));
                    assert(read_view(out@).drop_last() =~= read_view(before));
                }
            }
        }
        i = i + 1;
    }
    assert(rows@.take(rows@.len() as int) =~= rows@);
    out
}

/// The rows as they are grouped: by the text of their labels, and by time.
pub open spec fn keys_of<V>(d: Seq<RowView<V>>) -> Seq<(Seq<char>, i64)> {
    Seq::new(d.len(), |i: int| (rendered(d[i].labels), d[i].t))
}

/// The `j`-th counts of the rows that have so many, in their order.
pub open spec fn column<V>(vectors: Seq<Seq<V>>, j: int) -> Seq<V>
    decreases vectors.len(),
{
    if vectors.len() == 0 {
        Seq::empty()
    } else {
        let rest = column(vectors.drop_last(), j);
        if j < vectors.last().len() {
            rest.push(vectors.last()[j])
        } else {
            rest
        }
    }
}

/// The length of the longest list.
pub open spec fn longest<V>(vectors: Seq<Seq<V>>) -> nat
    decreases vectors.len(),
{
    if vectors.len() == 0 {
        0
    } else {
        let rest = longest(vectors.drop_last());
        if vectors.last().len() > rest {
            vectors.last().len()
        } else {
            rest
        }
    }
}

/// Whether `x` is the sum of the values, from zero.
pub open spec fn total<V: Number>(values: Seq<V>, x: V) -> bool {
    exists|zero: V| #[trigger] counted(0, zero) && summed(zero, values, values.len(), x)
}

/// Whether `acc` holds the sums of the counts, bucket by bucket.
pub open spec fn buckets_summed<V: Number>(vectors: Seq<Seq<V>>, acc: Seq<V>) -> bool {
    acc.len() == longest(vectors) && forall|j: int|
        0 <= j < acc.len() ==> total(column(vectors, j), #[trigger] acc[j])
}

proof fn summed_on_prefix<V: Number>(zero: V, a: Seq<V>, b: Seq<V>, n: nat, x: V)
    requires
        n <= a.len(),
        n <= b.len(),
        forall|i: int| 0 <= i < n ==> a[i] == b[i],
        summed(zero, a, n, x),
    ensures
        summed(zero, b, n, x),
    decreases n,
{
    if n > 0 {
        let p = choose|p: V|
            summed(zero, a, (n - 1) as nat, p) && #[trigger] calculated(
                Arithmetic::Add,
                p,
                a[n - 1],
                x,
            );
        summed_on_prefix(zero, a, b, (n - 1) as nat, p);
        assert(calculated(Arithmetic::Add, p, b[n - 1], x));
    }
}

pub(crate) proof fn total_grows<V: Number>(values: Seq<V>, x: V, v: V, y: V)
    requires
        total(values, x),
        calculated(Arithmetic::Add, x, v, y),
    ensures
        total(values.push(v), y),
{
    let zero = choose|zero: V| #[trigger]
        counted(0, zero) && summed(zero, values, values.len(), x);
    let more = values.push(v);
    summed_on_prefix(zero, values, more, values.len(), x);
    assert(more[more.len() - 1] == v);
    assert(calculated(Arithmetic::Add, x, more[more.len() - 1], y));
    assert(summed(zero, more, more.len(), y));
}

proof fn no_column_beyond<V>(vectors: Seq<Seq<V>>, j: int)
    requires
        j >= longest(vectors),
    ensures
        column(vectors, j).len() == 0,
    decreases vectors.len(),
{
    if vectors.len() > 0 {
        no_column_beyond(vectors.drop_last(), j);
    }
}

/// Add the counts of a row to the sums.
fn add_counts<V: Number>(acc: Vec<V>, counts: &Vec<V>, Ghost(vectors): Ghost<Seq<Seq<V>>>) -> (r: Vec<
    V,
>)
    requires
        buckets_summed(vectors, acc@),
    ensures
        buckets_summed(vectors.push(counts@), r@),
{
    let mut acc = acc;
    let ghost start = acc@;
    while acc.len() < counts.len()
        invariant
            start.len() == longest(vectors),
            acc@.len() >= start.len(),
            acc@.len() <= start.len() || acc@.len() <= counts@.len(),
            forall|j: int| 0 <= j < acc@.len() ==> total(column(vectors, j), #[trigger] acc@[j]),
        decreases counts.len() - acc.len(),
    {
        let zero = V::of_count(0);
        let ghost before = acc@;
        acc.push(zero);
        proof {
            no_column_beyond(vectors, before.len() as int);
            assert(counted(0, zero));
            assert(summed(zero, column(vectors, before.len() as int), 0, zero));
            assert(total(column(vectors, before.len() as int), zero));
            assert forall|j: int| 0 <= j < acc@.len() implies total(
                column(vectors, j),
                #[trigger] acc@[j],
            ) by {
                if j < before.len() {
                    assert(acc@[j] == before[j]);
                }
            }
        }
    }
    let ghost wide = acc@;
    let ghost more = vectors.push(counts@);
    proof {
        assert(more.drop_last() =~= vectors);
        assert(wide.len() == longest(more));
    }
    let mut i: usize = 0;
    while i < counts.len()
        invariant
            i <= counts@.len() <= acc@.len(),
            more == vectors.push(counts@),
            more.drop_last() == vectors,
            acc@.len() == wide.len(),
            forall|j: int|
                0 <= j < i ==> total(column(more, j), #[trigger] acc@[j]),
            forall|j: int| i <= j < acc@.len() ==> total(column(vectors, j), #[trigger] acc@[j]),
        decreases counts.len() - i,
    {
        let x = acc[i];
        let y = V::calculate(Arithmetic::Add, x, counts[i]);
        let ghost before = acc@;
        acc.set(i, y);
        proof {
            assert(calculated(Arithmetic::Add, x, counts@[i as int], y));
            assert(total(column(vectors, i as int), before[i as int]));
            total_grows(column(vectors, i as int), x, counts@[i as int], y);
            assert(column(more, i as int) == column(vectors, i as int).push(counts@[i as int]));
            assert forall|j: int| 0 <= j < i + 1 implies total(
                column(more, j),
                #[trigger] acc@[j],
            ) by {
                if j < i {
                    assert(acc@[j] == before[j]);
                }
            }
            assert forall|j: int| i + 1 <= j < acc@.len() implies total(
                column(vectors, j),
                #[trigger] acc@[j],
            ) by {
                assert(acc@[j] == before[j]);
            }
        }
        i = i + 1;
    }
    proof {
        assert forall|j: int| 0 <= j < acc@.len() implies total(
            column(more, j),
            #[trigger] acc@[j],
        ) by {
            if j >= counts@.len() {
                assert(column(more, j) == column(vectors, j));
            }
        }
    }
    acc
}

/// The counts of the rows at the given places.
pub open spec fn counts_at<V>(d: Seq<RowView<V>>, rows: Seq<usize>) -> Seq<Seq<V>> {
    Seq::new(rows.len(), |i: int| d[rows[i] as int].counts)
}

fn sum_counts<V: Number>(d: &Vec<ReadRow<V>>, rows: &Vec<usize>) -> (acc: Vec<V>)
    requires
        forall|i: int| 0 <= i < rows@.len() ==> (#[trigger] rows@[i]) < d@.len(),
    ensures
        buckets_summed(counts_at(read_view(d@), rows@), acc@),
{
    let mut acc: Vec<V> = Vec::new();
    let ghost all = counts_at(read_view(d@), rows@);
    let mut i: usize = 0;
    while i < rows.len()
        invariant
            forall|j: int| 0 <= j < rows@.len() ==> (#[trigger] rows@[j]) < d@.len(),
            all == counts_at(read_view(d@), rows@),
            i <= rows@.len(),
            buckets_summed(all.take(i as int), acc@),
        decreases rows.len() - i,
    {
        let ghost seen = all.take(i as int);
        let row = rows[i];
        proof {
            assert(read_view(d@)[row as int] == d@[row as int]@);
            assert(all.take(i + 1) =~= seen.push(d@[row as int].counts@));
        }
        acc = add_counts(acc, &d[row].counts, Ghost(seen));
        i = i + 1;
    }
    assert(all.take(rows@.len() as int) =~= all);
    acc
}

/// The times that have a result, with it.
pub open spec fn timed<V>(times: Seq<i64>, results: Seq<Option<V>>) -> Seq<Point<V>>
    decreases times.len(),
{
    if times.len() == 0 {
        Seq::empty()
    } else {
        let rest = timed(times.drop_last(), results.drop_last());
        match results.last() {
            Some(x) => rest.push((times.last(), x)),
            None => rest,
        }
    }
}

/// Whether the times are those of a group's rows, in ascending order.
pub open spec fn are_times(keys: Seq<(Seq<char>, i64)>, key: Seq<char>, times: Seq<i64>) -> bool {
    &&& forall|i: int, j: int| 0 <= i < j < times.len() ==> #[trigger] times[i] < #[trigger] times[j]
    &&& forall|i: int|
        0 <= i < times.len() ==> rows_at(keys, key, #[trigger] times[i]).len() > 0
    &&& forall|t: i64| (#[trigger] rows_at(keys, key, t)).len() > 0 ==> times.contains(t)
}

/// The times of slots.
pub open spec fn slot_times(slots: Seq<Slot>) -> Seq<i64> {
    Seq::new(slots.len(), |i: int| slots[i].t)
}

pub(crate) proof fn slot_times_are_times(keys: Seq<(Seq<char>, i64)>, key: Seq<char>, slots: Seq<Slot>)
    requires
        slots_hold(keys, key, slots),
    ensures
        are_times(keys, key, slot_times(slots)),
{
    let times = slot_times(slots);
    assert forall|i: int, j: int| 0 <= i < j < times.len() implies #[trigger] times[i]
        < #[trigger] times[j] by {
        assert(slots[i].t < slots[j].t);
    }
    assert forall|i: int| 0 <= i < times.len() implies rows_at(
        keys,
        key,
        #[trigger] times[i],
    ).len() > 0 by {
        assert(slots[i].rows@ == rows_at(keys, key, slots[i].t));
    }
    assert forall|t: i64| (#[trigger] rows_at(keys, key, t)).len() > 0 implies times.contains(
        t,
    ) by {
        assert(has_slot(slots, t));
        let i = choose|i: int| 0 <= i < slots.len() && (#[trigger] slots[i]).t == t;
        assert(times[i] == t);
    }
}

/// Whether `res` is the quantile of the summed counts of rows.
pub open spec fn slot_quantile<V: Number>(
    phi: V,
    vectors: Seq<Seq<V>>,
    bounds: Seq<V>,
    res: Option<V>,
) -> bool {
    exists|acc: Seq<V>| #[trigger]
        buckets_summed(vectors, acc) && is_quantile(phi, acc, bounds, res)
}

/// Whether each result is the quantile of the rows of its time.
pub open spec fn slot_quantiles<V: Number>(
    phi: V,
    d: Seq<RowView<V>>,
    key: Seq<char>,
    bounds: Seq<V>,
    times: Seq<i64>,
    results: Seq<Option<V>>,
) -> bool {
    results.len() == times.len() && forall|j: int|
        0 <= j < times.len() ==> slot_quantile(
            phi,
            counts_at(d, rows_at(keys_of(d), key, times[j])),
            bounds,
            #[trigger] results[j],
        )
}

/// Whether `s` is the series of a group: with the labels and the bounds of its first
/// row, and a point at each time at which there is a quantile.
pub open spec fn quantile_group<V: Number>(
    phi: V,
    d: Seq<RowView<V>>,
    key: Seq<char>,
    s: SeriesView<V>,
) -> bool {
    match first_row(keys_of(d), key) {
        None => false,
        Some(first) => {
            &&& s.labels == d[first].labels
            &&& exists|times: Seq<i64>, results: Seq<Option<V>>| #[trigger]
                are_times(keys_of(d), key, times) && #[trigger] slot_quantiles(
                    phi,
                    d,
                    key,
                    d[first].bounds,
                    times,
                    results,
                ) && s.points == timed(times, results)
        },
    }
}

/// Whether the texts are those of the groups, in ascending order.
pub open spec fn are_groups(keys: Seq<(Seq<char>, i64)>, groups: Seq<Seq<char>>) -> bool {
    texts_ascend(groups) && forall|key: Seq<char>| #[trigger]
        among(groups, key) <==> first_row(keys, key) is Some
}

/// Whether `out` holds the series of the groups, in ascending order of their texts.
pub open spec fn quantile_series<V: Number>(
    phi: V,
    d: Seq<RowView<V>>,
    out: Seq<SeriesView<V>>,
) -> bool {
    exists|groups: Seq<Seq<char>>| #[trigger]
        are_groups(keys_of(d), groups) && out.len() == groups.len() && forall|i: int|
            0 <= i < groups.len() ==> quantile_group(phi, d, groups[i], #[trigger] out[i])
}

fn key_rows<V>(d: &Vec<ReadRow<V>>) -> (r: Vec<RowKey>)
    ensures
        rows_view(r@) == keys_of(read_view(d@)),
{
    let mut r: Vec<RowKey> = Vec::new();
    let ghost want = keys_of(read_view(d@));
    let mut i: usize = 0;
    while i < d.len()
        invariant
            want == keys_of(read_view(d@)),
            i <= d@.len(),
            rows_view(r@) =~= want.take(i as int),
        decreases d.len() - i,
    {
        let k = (d[i].labels.key(), d[i].t);
        let ghost before = r@;
        let ghost v = (k.0@, k.1);
        assert(v == want[i as int]);
        r.push(k);
        assert(rows_view(r@) =~= rows_view(before).push(v));
        i = i + 1;
    }
    assert(want.take(d@.len() as int) =~= want);
    r
}

/// The texts of the groups.
pub open spec fn group_texts(l: Seq<(String, RowGroup)>) -> Seq<Seq<char>> {
    Seq::new(l.len(), |i: int| l[i].0@)
}

pub(crate) proof fn group_texts_are_groups(keys: Seq<(Seq<char>, i64)>, l: Seq<(String, RowGroup)>)
    requires
        crate::textmap::ascending(l),
        groups_hold(keys, mapping(l)),
    ensures
        are_groups(keys, group_texts(l)),
{
    let g = group_texts(l);
    assert forall|i: int, j: int| 0 <= i < j < g.len() implies crate::text::precedes(
        #[trigger] g[i],
        #[trigger] g[j],
    ) by {
        assert(crate::text::precedes(l[i].0@, l[j].0@));
    }
    assert forall|key: Seq<char>| #[trigger]
        among(g, key) <==> first_row(keys, key) is Some by {
        assert(mapping(l).dom().contains(key) <==> has_key(l, key));
        if among(g, key) {
            let i = choose|i: int| 0 <= i < g.len() && #[trigger] g[i] == key;
            assert(l[i].0@ == key);
        }
        if has_key(l, key) {
            let i = place_of(l, key);
            assert(g[i] == key);
        }
    }
}

/// The points of a group.
fn quantile_points<V: Number>(
    phi: V,
    d: &Vec<ReadRow<V>>,
    slots: &Vec<Slot>,
    bounds: &Vec<V>,
    Ghost(key): Ghost<Seq<char>>,
) -> (r: Vec<Point<V>>)
    requires
        slots_hold(keys_of(read_view(d@)), key, slots@),
    ensures
        exists|results: Seq<Option<V>>| #[trigger]
            slot_quantiles(phi, read_view(d@), key, bounds@, slot_times(slots@), results) && r@
                == timed(slot_times(slots@), results),
{
    let ghost view = read_view(d@);
    let ghost keys = keys_of(view);
    let ghost times = slot_times(slots@);
    let ghost mut results: Seq<Option<V>> = Seq::empty();
    let mut out: Vec<Point<V>> = Vec::new();
    let n: usize = d.len();
    let mut i: usize = 0;
    while i < slots.len()
        invariant
            n == d@.len(),
            view == read_view(d@),
            keys == keys_of(view),
            times == slot_times(slots@),
            slots_hold(keys, key, slots@),
            i <= slots@.len(),
            slot_quantiles(phi, view, key, bounds@, times.take(i as int), results),
            out@ == timed(times.take(i as int), results),
        decreases slots.len() - i,
    {
        let t = slots[i].t;
        proof {
            rows_are_in_range(keys, key, t);
            assert(slots@[i as int].rows@ == rows_at(keys, key, t));
        }
        let acc = sum_counts(d, &slots[i].rows);
        let res = histogram_quantile(phi, &acc, bounds);
        let ghost old_results = results;
        proof {
            let seen = times.take(i as int);
            let next = times.take(i + 1);
            results = results.push(res);
            assert(next.drop_last() =~= seen);
            assert(next.last() == t);
            assert(results.drop_last() =~= old_results);
            assert(slot_quantile(phi, counts_at(view, rows_at(keys, key, t)), bounds@, res));
            assert forall|j: int| 0 <= j < next.len() implies slot_quantile(
                phi,
                counts_at(view, rows_at(keys, key, next[j])),
                bounds@,
                #[trigger] results[j],
            ) by {
                if j < i {
                    assert(results[j] == old_results[j]);
                    assert(next[j] == seen[j]);
                }
            }
        }
        if let Some(q) = res {
            out.push((t, q));
        }
        i = i + 1;
    }
    assert(times.take(slots@.len() as int) =~= times);
    out
}

/// The quantile series of read rows.
fn quantiles_of_rows<V: Number>(phi: V, d: &Vec<ReadRow<V>>) -> (out: Vec<Series<V>>)
    ensures
        quantile_series(phi, read_view(d@), list_view(out@)),
{
    let ghost view = read_view(d@);
    let ghost keys = keys_of(view);
    let rows = key_rows(d);
    let groups = group_rows(&rows);
    let n: usize = groups.len();
    let ghost l = groups.listing();
    let ghost names = group_texts(l);
    proof {
        group_texts_are_groups(keys, l);
    }
    let mut out: Vec<Series<V>> = Vec::new();
    let mut i: usize = 0;
    while i < n
        invariant
            view == read_view(d@),
            keys == keys_of(view),
            l == groups.listing(),
            names == group_texts(l),
            crate::textmap::ascending(l),
            groups_hold(keys, mapping(l)),
            i <= n == l.len(),
            out@.len() == i,
            forall|j: int|
                0 <= j < i ==> quantile_group(phi, view, names[j], (#[trigger] out@[j])@),
        decreases n - i,
    {
        let (key, group) = groups.at(i);
        proof {
            mapping_at(l, i as int);
            assert(mapping(l)[key@] == *group);
            first_row_is_in_range(keys, key@);
            assert(view[group.first as int] == d@[group.first as int]@);
        }
        let first = &d[group.first];
        let points = quantile_points(phi, d, &group.slots, &first.bounds, Ghost(key@));
        let s = Series { labels: first.labels.copy(), points };
        proof {
            slot_times_are_times(keys, key@, group.slots@);
            assert(names[i as int] == key@);
            assert(first.bounds@ == view[group.first as int].bounds);
            let results = choose|results: Seq<Option<V>>| #[trigger]
                slot_quantiles(
                    phi,
                    view,
                    key@,
                    first.bounds@,
                    slot_times(group.slots@),
                    results,
                ) && points@ == timed(slot_times(group.slots@), results);
            assert(slot_quantiles(
                phi,
                view,
                key@,
                view[group.first as int].bounds,
                slot_times(group.slots@),
                results,
            ));
            assert(quantile_group(phi, view, key@, s@));
        }
        out.push(s);
        i = i + 1;
    }
    proof {
        let o = list_view(out@);
        assert forall|j: int| 0 <= j < names.len() implies quantile_group(
            phi,
            view,
            names[j],
            #[trigger] o[j],
        ) by {
            assert(o[j] == out@[j]@);
        }
    }
    out
}

/// Whether `out` is what a quantile query gives for its rows: the quantile series of
/// the rows that take part; of these, under `topk`, those with the highest last
/// values.
pub open spec fn quantile_answer<V: Number>(
    h: HistView,
    rows: Seq<HistRow>,
    out: Seq<SeriesView<V>>,
) -> bool {
    exists|phi: V, d: Seq<RowView<V>>, all: Seq<SeriesView<V>>|
        {
            &&& #[trigger] call_ensures(V::of_bits, (h.phi,), phi)
            &&& #[trigger] rows_read(h.group_by, rows, d)
            &&& #[trigger] quantile_series(phi, d, all)
            &&& match h.topk {
                None => out == all,
                Some(k) => top_series(Score::Last, k.0, k.1, all, out),
            }
        }
}

/// Serve a classic-histogram quantile query from the rows of array histograms: sum
/// bucket counts per (group, ts), and interpolate the quantile.
pub fn handle_hist_quantile_range<V: Number>(spec: &HistSpec, rows: &Vec<HistRow>) -> (out: Vec<Series<V>>)
    ensures
        quantile_answer(spec@, rows@, list_view(out@)),
{
    let phi = V::of_bits(spec.phi);
    assert(call_ensures(V::of_bits, (spec@.phi,), phi));
    let d: Vec<ReadRow<V>> = read_rows(&spec.group_by, rows);
    let all = quantiles_of_rows(phi, &d);
    let ghost view = list_view(all@);
    assert(rows_read(spec@.group_by, rows@, read_view(d@)));
    assert(quantile_series(phi, read_view(d@), view));
    match spec.topk {
        None => all,
        Some(k) => keep_top(all, k.0, k.1, Score::Last),
    }
}

/// The histogram rows of one table: those that pass the tests, with their time, their
/// `bucket_counts` and `explicit_bounds`, and their labels.
#[derive(Debug)]
pub struct HistScan {
    pub table: String,
    pub scope: QueryScope,
    pub name: NameTest,
    pub tests: Vec<LabelTest>,
    pub time: TimeTest,
}

/// A scan of histogram rows, as a value.
pub struct HistScanView {
    pub table: Seq<char>,
    pub scope: QueryScope,
    pub name: NameView,
    pub tests: Seq<TestView>,
    pub time: TimeTest,
}

impl View for HistScan {
    type V = HistScanView;

    open spec fn view(&self) -> HistScanView {
        HistScanView {
            table: self.table@,
            scope: self.scope,
            name: self.name@,
            tests: tests_view(self.tests@),
            time: self.time,
        }
    }
}

/// Scans of histogram rows, as values.
pub open spec fn hist_scans_view(s: Seq<HistScan>) -> Seq<HistScanView> {
    Seq::new(s.len(), |i: int| s[i]@)
}

/// The scan of one window for a histogram over a range.
pub open spec fn hist_window_scan(
    base: Seq<char>,
    tests: Seq<TestView>,
    w: (Seq<char>, int, int),
) -> HistScanView {
    HistScanView {
        table: w.0,
        scope: (QueryScope { lo_ns: w.1 as i64, hi_ns: w.2 as i64 }),
        name: exact_name_test(base),
        tests,
        time: TimeTest::Between(w.1 as i64, w.2 as i64),
    }
}

/// The scans of the windows for a histogram over a range: a histogram reads its last
/// cumulative counts, so a tier can serve the sealed part.
pub open spec fn hist_scans(
    tables: Seq<String>,
    base: Seq<char>,
    tests: Seq<TestView>,
    start: int,
    end: int,
    step: int,
    now: int,
) -> Seq<HistScanView> {
    let windows = source_windows(tables, start, end, step, Capability::Last, now);
    Seq::new(windows.len(), |i: int| hist_window_scan(base, tests, windows[i]))
}

/// Tier-routed row source for a classic-histogram range query.
pub fn hist_source(
    tables: &Vec<String>,
    base: &str,
    tests: &Vec<LabelTest>,
    start_ns: i64,
    end_ns: i64,
    step_ns: i64,
    now_ns: i64,
) -> (r: Vec<HistScan>)
    ensures
        hist_scans_view(r@) == hist_scans(
            tables@,
            base@,
            tests_view(tests@),
            start_ns as int,
            end_ns as int,
            step_ns as int,
            now_ns as int,
        ),
{
    let windows = resolve_metric_windows(
        tables,
        start_ns,
        end_ns,
        step_ns,
        Capability::Last,
        now_ns,
    );
    let ghost w = windows_view(windows@);
    let ghost want = hist_scans(
        tables@,
        base@,
        tests_view(tests@),
        start_ns as int,
        end_ns as int,
        step_ns as int,
        now_ns as int,
    );
    let mut scans: Vec<HistScan> = Vec::new();
    let mut i: usize = 0;
    while i < windows.len()
        invariant
            w == windows_view(windows@),
            want == Seq::new(
                w.len(),
                |k: int| hist_window_scan(base@, tests_view(tests@), w[k]),
            ),
            i <= windows@.len(),
            hist_scans_view(scans@) =~= want.take(i as int),
        decreases windows.len() - i,
    {
        let scan = HistScan {
            table: owned(windows[i].0.as_str()),
            scope: QueryScope { lo_ns: windows[i].1, hi_ns: windows[i].2 },
            name: exact_name(base),
            tests: copied_tests(tests),
            time: TimeTest::Between(windows[i].1, windows[i].2),
        };
        let ghost before = scans@;
        let ghost v = scan@;
        proof {
            assert(w[i as int] == window_view(windows@[i as int]));
            assert(v == want[i as int]);
        }
        scans.push(scan);
        assert(hist_scans_view(scans@) =~= hist_scans_view(before).push(v));
        i = i + 1;
    }
    assert(want.take(windows@.len() as int) =~= want);
    scans
}

/// The scan for the latest histograms of a selector at or before the anchored time.
pub open spec fn instant_hist_scan(s: Selector, time: int, now: int) -> Result<
    HistScanView,
    Seq<char>,
> {
    match s.name {
        None => Err(nameless_histogram()),
        Some(name) => {
            let anchor = anchored(time, now) as i64;
            Ok(
                HistScanView {
                    table: "metrics"@,
                    scope: (QueryScope { lo_ns: i64::MIN, hi_ns: anchor }),
                    name: exact_name_test(name@),
                    tests: tests_of(s.matchers@),
                    time: TimeTest::AtMost(anchor),
                },
            )
        },
    }
}

/// The scan for the latest histograms of a selector. An instant has no lookback
/// window, so the windows that it resolves to are the raw one.
pub fn hist_instant_scan(tables: &Vec<String>, vs: &Selector, time_ns: i64, now_ns: i64) -> (r: Result<
    HistScan,
    String,
>)
    ensures
        match r {
            Ok(scan) => instant_hist_scan(*vs, time_ns as int, now_ns as int) == Ok::<
                HistScanView,
                Seq<char>,
            >(scan@),
            Err(m) => instant_hist_scan(*vs, time_ns as int, now_ns as int) == Err::<
                HistScanView,
                Seq<char>,
            >(m@),
        },
{
    match &vs.name {
        None => Err(owned("histogram selector requires a name")),
        Some(name) => {
            let anchor = instant_anchor(time_ns, now_ns);
            let windows = resolve_metric_windows(
                tables,
                anchor,
                anchor,
                0,
                Capability::Last,
                now_ns,
            );
            let ghost w = windows_view(windows@);
            assert(w.len() == 1);
            assert(w[0] == window_view(windows@[0]));
            let hi = windows[0].2;
            Ok(
                HistScan {
                    table: owned(windows[0].0.as_str()),
                    scope: QueryScope { lo_ns: i64::MIN, hi_ns: hi },
                    name: exact_name(name.as_str()),
                    tests: matcher_tests(&vs.matchers),
                    time: TimeTest::AtMost(hi),
                },
            )
        },
    }
}

/// What identifies a series of which an instant query takes the latest histogram.
pub fn hist_partition() -> (r: Partition)
    ensures
        r == Partition::NameServiceSeries,
{
    Partition::NameServiceSeries
}

/// A row of an instant histogram query: the latest histogram of a series.
#[derive(Debug)]
pub struct LatestHist {
    pub service: Option<String>,
    pub counts: Option<String>,
    pub bounds: Option<String>,
}

/// The labels of an instant quantile: the metric's name, and its service.
pub open spec fn hist_labels(name: Seq<char>, service: Option<String>) -> LabelMap {
    let named = Map::<Seq<char>, Seq<char>>::empty().insert("__name__"@, name);
    match service {
        Some(s) => named.insert("service_name"@, s@),
        None => named,
    }
}

/// Whether `part` is the sample of a row: its quantile, if it has one.
pub open spec fn hist_sample<V: Number>(
    phi: V,
    name: Seq<char>,
    row: LatestHist,
    part: Option<(LabelMap, V)>,
) -> bool {
    exists|counts: Seq<V>, bounds: Seq<V>|
        {
            &&& #[trigger] are_doubles(doubles_of(row.counts), counts)
            &&& #[trigger] are_doubles(doubles_of(row.bounds), bounds)
            &&& is_quantile(
                phi,
                counts,
                bounds,
                match part {
                    Some(p) => Some(p.1),
                    None => None,
                },
            )
        } && match part {
        Some(p) => p.0 == hist_labels(name, row.service),
        None => true,
    }
}

/// Whether each part is the sample of its row.
pub open spec fn hist_samples<V: Number>(
    phi: V,
    name: Seq<char>,
    rows: Seq<LatestHist>,
    parts: Seq<Option<(LabelMap, V)>>,
) -> bool {
    parts.len() == rows.len() && forall|i: int|
        0 <= i < rows.len() ==> hist_sample(phi, name, rows[i], #[trigger] parts[i])
}

/// Whether `out` is what an instant quantile query gives for its rows.
pub open spec fn instant_quantile_answer<V: Number>(
    bits: u64,
    name: Seq<char>,
    rows: Seq<LatestHist>,
    out: Seq<(LabelMap, V)>,
) -> bool {
    exists|phi: V, parts: Seq<Option<(LabelMap, V)>>| #[trigger]
        call_ensures(V::of_bits, (bits,), phi) && #[trigger] hist_samples(phi, name, rows, parts)
            && out == present(parts)
}

/// The samples of `histogram_quantile(φ, m{…})` from the latest histogram of each
/// series.
pub fn handle_histogram<V: Number>(phi: u64, name: &str, rows: &Vec<LatestHist>) -> (out: Vec<
    Sample<V>,
>)
    ensures
        instant_quantile_answer(phi, name@, rows@, samples_view(out@)),
{
    let q = V::of_bits(phi);
    assert(call_ensures(V::of_bits, (phi,), q));
    let mut out: Vec<Sample<V>> = Vec::new();
    let ghost mut parts: Seq<Option<(LabelMap, V)>> = Seq::empty();
    proof {
        assert(samples_view(out@) =~= present(parts));
    }
    let mut i: usize = 0;
    while i < rows.len()
        invariant
            i <= rows@.len(),
            hist_samples(q, name@, rows@.take(i as int), parts),
            samples_view(out@) == present(parts),
        decreases rows.len() - i,
    {
        let row = &rows[i];
        let counts: Vec<V> = parse_f64_array(&row.counts);
        let bounds: Vec<V> = parse_f64_array(&row.bounds);
        let ghost old_parts = parts;
        let ghost before = out@;
        let ghost mut part: Option<(LabelMap, V)> = None;
        let res = histogram_quantile(q, &counts, &bounds);
        if let Some(v) = res {
            let mut metric = Labels::new().with(owned("__name__"), owned(name));
            if let Some(s) = &row.service {
                metric = metric.with(owned("service_name"), owned(s.as_str()));
            }
            out.push((metric, v));
            proof {
                samples_push(before, out@.last());
                part = Some((metric@, v));
            }
        }
        proof {
            let seen = rows@.take(i as int);
            let next = rows@.take(i + 1);
            parts = parts.push(part);
            assert(parts.drop_last() =~= old_parts);
            assert(are_doubles(doubles_of(row.counts), counts@));
            assert(are_doubles(doubles_of(row.bounds), bounds@));
            assert(hist_sample(q, name@, *row, part));
            assert forall|j: int| 0 <= j < next.len() implies hist_sample(
                q,
                name@,
                next[j],
                #[trigger] parts[j],
            ) by {
                if j < i {
                    assert(parts[j] == old_parts[j]);
                    assert(next[j] == seen[j]);
                }
            }
        }
        i = i + 1;
    }
    assert(rows@.take(rows@.len() as int) =~= rows@);
    out
}

/// Series put one after another under the texts of their labels.
pub open spec fn set_of<V>(s: Seq<SeriesView<V>>) -> Map<Seq<char>, SeriesView<V>>
    decreases s.len(),
{
    if s.len() == 0 {
        Map::empty()
    } else {
        put_series(set_of(s.drop_last()), s.last())
    }
}

/// Put series into a set under the texts of their labels, so that they can feed a
/// binary operand.
pub fn matrix_to_series<V: Copy>(series: Vec<Series<V>>) -> (r: RangeSeries<V>)
    ensures
        series_view(r@) == set_of(list_view(series@)),
{
    let ghost s = list_view(series@);
    let mut r: RangeSeries<V> = TextMap::new();
    proof {
        assert(series_view(r@) =~= set_of(s.take(0)));
    }
    let mut i: usize = 0;
    while i < series.len()
        invariant
            s == list_view(series@),
            i <= series@.len(),
            series_view(r@) == set_of(s.take(i as int)),
        decreases series.len() - i,
    {
        let x = Series {
            labels: series[i].labels.copy(),
            points: crate::rank::copy_points(&series[i].points),
        };
        proof {
            assert(s.take(i + 1).drop_last() =~= s.take(i as int));
            assert(s.take(i + 1).last() == x@);
        }
        r = put(r, x);
        i = i + 1;
    }
    assert(s.take(series@.len() as int) =~= s);
    r
}

} // verus!

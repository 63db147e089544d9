//! Laws of histogram queries: which rows are summed, and what the buckets of a heatmap hold.
use crate::binary::{are_places, places_of_present};
use crate::classify::HistView;
use crate::heatmap::{
    cell_totals, entry_keys, entry_values, exploded, entry_at, heat_group, heat_series, is_le,
    rate_between, rates_are, row_entries, row_exploded, span_ns, EntryView,
};
use crate::histogram::{
    are_doubles, are_groups, are_times, buckets_summed, column, counts_at, doubles_of, hist_sample,
    hist_samples, instant_quantile_answer, is_usable, keys_of, longest, quantile_answer,
    quantile_group, quantile_series, row_labels, row_read, rows_read, slot_quantile,
    slot_quantiles, timed, HistRow, LatestHist, RowView,
};
use crate::labels::{keys_tell_label_sets_apart, rendered};
use crate::number::{Arithmetic, Comparison, Number};
use crate::operators::{calculated, compared, counted, is_quantile, summed};
use crate::quantile::{exact, numbers, sum_of, sums_are_exact, sums_are_totals, total};
use crate::matching::present;
use crate::rank::{top_series, Score};
use crate::series::{LabelMap, SeriesView};
use crate::slots::{first_row, first_row_is_in_range, rows_are_in_range, rows_at};
use crate::text::{among, precedes, precedes_irreflexive};
use vstd::prelude::*;

verus! {

/// The counts of the rows of a label set at a time, in their order.
pub open spec fn member_counts<V>(d: Seq<RowView<V>>, labels: LabelMap, t: i64) -> Seq<Seq<V>> {
    d.filter(|r: RowView<V>| r.labels == labels && r.t == t).map_values(
        |r: RowView<V>| r.counts,
    )
}

/// The counts of a bucket in the lists that have so many.
pub open spec fn bucket_counts<V>(vectors: Seq<Seq<V>>, j: int) -> Seq<V> {
    vectors.filter(|v: Seq<V>| j < v.len()).map_values(|v: Seq<V>| v[j])
}

/// Whether `acc` adds up lists of counts, bucket by bucket: it is as long as the longest,
/// and a list that is shorter adds nothing to the buckets that it lacks.
pub open spec fn adds_up<V>(
    val: spec_fn(V) -> real,
    vectors: Seq<Seq<V>>,
    acc: Seq<V>,
) -> bool {
    &&& forall|i: int| 0 <= i < vectors.len() ==> (#[trigger] vectors[i]).len() <= acc.len()
    &&& acc.len() > 0 ==> exists|i: int|
        0 <= i < vectors.len() && (#[trigger] vectors[i]).len() == acc.len()
    &&& forall|j: int|
        0 <= j < acc.len() ==> val(#[trigger] acc[j]) == total(
            numbers(val, bucket_counts(vectors, j)),
        )
}

proof fn columns_are_buckets<V>(vectors: Seq<Seq<V>>, j: int)
    ensures
        column(vectors, j) == bucket_counts(vectors, j),
    decreases vectors.len(),
{
    reveal(Seq::filter);
    let pred = |v: Seq<V>| j < v.len();
    let f = |v: Seq<V>| v[j];
    if vectors.len() == 0 {
        assert(vectors.filter(pred).map_values(f) =~= Seq::<V>::empty());
    } else {
        let rest = vectors.drop_last();
        columns_are_buckets(rest, j);
        if pred(vectors.last()) {
            assert(rest.filter(pred).push(vectors.last()).map_values(f) =~= rest.filter(
                pred,
            ).map_values(f).push(f(vectors.last())));
        }
    }
}

proof fn longest_is_longest<V>(vectors: Seq<Seq<V>>)
    ensures
        forall|i: int|
            0 <= i < vectors.len() ==> (#[trigger] vectors[i]).len() <= longest(vectors),
        longest(vectors) > 0 ==> exists|i: int|
            0 <= i < vectors.len() && (#[trigger] vectors[i]).len() == longest(vectors),
    decreases vectors.len(),
{
    if vectors.len() > 0 {
        let rest = vectors.drop_last();
        let last = vectors.len() - 1;
        longest_is_longest(rest);
        assert(vectors[last] == vectors.last());
        assert forall|i: int| 0 <= i < vectors.len() implies (#[trigger] vectors[i]).len()
            <= longest(vectors) by {
            if i < last {
                assert(rest[i] == vectors[i]);
            }
        }
        if vectors.last().len() <= longest(rest) && longest(rest) > 0 {
            let i = choose|i: int|
                0 <= i < rest.len() && (#[trigger] rest[i]).len() == longest(rest);
            assert(vectors[i] == rest[i]);
        }
    }
}

proof fn sums_add_up<V: Number>(val: spec_fn(V) -> real, values: Seq<V>, x: V)
    requires
        exact(val),
        crate::histogram::total(values, x),
    ensures
        val(x) == total(numbers(val, values)),
{
    let zero = choose|zero: V| #[trigger]
        counted(0, zero) && summed(zero, values, values.len(), x);
    assert(val(zero) == 0real);
    sums_are_exact(val, zero, values, values.len(), x);
    sums_are_totals(val, values, values.len() as int);
    assert(values.take(values.len() as int) =~= values);
}

proof fn buckets_add_up<V: Number>(val: spec_fn(V) -> real, vectors: Seq<Seq<V>>, acc: Seq<V>)
    requires
        exact(val),
        buckets_summed(vectors, acc),
    ensures
        adds_up(val, vectors, acc),
{
    longest_is_longest(vectors);
    assert forall|j: int| 0 <= j < acc.len() implies val(#[trigger] acc[j]) == total(
        numbers(val, bucket_counts(vectors, j)),
    ) by {
        columns_are_buckets(vectors, j);
        sums_add_up(val, column(vectors, j), acc[j]);
    }
}

/// Whether the label sets of rows are finite, as those of all rows are.
pub open spec fn labels_are_finite<V>(d: Seq<RowView<V>>) -> bool {
    forall|i: int| 0 <= i < d.len() ==> (#[trigger] d[i]).labels.dom().finite()
}

proof fn rows_are_members<V>(d: Seq<RowView<V>>, labels: LabelMap, t: i64)
    requires
        labels_are_finite(d),
        labels.dom().finite(),
        d.len() <= usize::MAX,
    ensures
        counts_at(d, rows_at(keys_of(d), rendered(labels), t)) == member_counts(d, labels, t),
    decreases d.len(),
{
    reveal(Seq::filter);
    let key = rendered(labels);
    let pred = |r: RowView<V>| r.labels == labels && r.t == t;
    let f = |r: RowView<V>| r.counts;
    if d.len() == 0 {
        assert(member_counts(d, labels, t) =~= Seq::<Seq<V>>::empty());
        assert(counts_at(d, rows_at(keys_of(d), key, t)) =~= Seq::<Seq<V>>::empty());
    } else {
        let (rest, x) = (d.drop_last(), d.last());
        let keys = keys_of(d);
        assert(keys.drop_last() =~= keys_of(rest));
        assert(x == d[d.len() - 1]);
        assert forall|i: int| 0 <= i < rest.len() implies (
        #[trigger] rest[i]).labels.dom().finite() by {
            assert(rest[i] == d[i]);
        }
        rows_are_members(rest, labels, t);
        keys_tell_label_sets_apart(x.labels, labels);
        let before = rows_at(keys_of(rest), key, t);
        rows_are_in_range(keys_of(rest), key, t);
        assert(counts_at(d, before) =~= counts_at(rest, before)) by {
            assert forall|i: int| 0 <= i < before.len() implies d[(
            #[trigger] before[i]) as int].counts == rest[before[i] as int].counts by {
                assert(before[i] < rest.len());
            }
        }
        if pred(x) {
            let more = before.push((d.len() - 1) as usize);
            assert(counts_at(d, more) =~= counts_at(d, before).push(x.counts));
            assert(rest.filter(pred).push(x).map_values(f) =~= rest.filter(pred).map_values(
                f,
            ).push(x.counts));
        }
    }
}

proof fn first_rows_are_first<V>(d: Seq<RowView<V>>, key: Seq<char>)
    ensures
        first_row(keys_of(d), key) matches Some(i) ==> 0 <= i < d.len() && rendered(d[i].labels)
            == key && forall|j: int| 0 <= j < i ==> rendered((#[trigger] d[j]).labels) != key,
        first_row(keys_of(d), key) is None ==> forall|j: int|
            0 <= j < d.len() ==> rendered((#[trigger] d[j]).labels) != key,
    decreases d.len(),
{
    if d.len() > 0 {
        let rest = d.drop_last();
        assert(keys_of(d).drop_last() =~= keys_of(rest));
        first_rows_are_first(rest, key);
        assert forall|j: int| 0 <= j < rest.len() implies #[trigger] d[j] == rest[j] by {}
    }
}

/// Whether a series is the quantile of the rows of its label set: at each of its times it
/// has the quantile of the sums of their counts at that time, over the bounds of the first
/// of them; and a time of theirs that it lacks has no quantile.
pub open spec fn is_quantile_of_rows<V: Number>(
    val: spec_fn(V) -> real,
    phi: V,
    d: Seq<RowView<V>>,
    s: SeriesView<V>,
) -> bool {
    exists|first: int|
        {
            &&& 0 <= first < d.len()
            &&& (#[trigger] d[first]).labels == s.labels
            &&& forall|j: int| 0 <= j < first ==> (#[trigger] d[j]).labels != s.labels
            &&& forall|j: int|
                0 <= j < s.points.len() ==> sums_have_quantile(
                    val,
                    phi,
                    member_counts(d, s.labels, (#[trigger] s.points[j]).0),
                    d[first].bounds,
                    Some(s.points[j].1),
                )
            &&& forall|i: int|
                #![trigger d[i]]
                0 <= i < d.len() && d[i].labels == s.labels ==> (exists|j: int|
                    0 <= j < s.points.len() && (#[trigger] s.points[j]).0 == d[i].t)
                    || sums_have_quantile(
                    val,
                    phi,
                    member_counts(d, s.labels, d[i].t),
                    d[first].bounds,
                    None,
                )
            &&& forall|i: int, j: int|
                0 <= i < j < s.points.len() ==> (#[trigger] s.points[i]).0 < (
                #[trigger] s.points[j]).0
        }
}

/// Whether sums of counts have a quantile, or none.
pub open spec fn sums_have_quantile<V: Number>(
    val: spec_fn(V) -> real,
    phi: V,
    vectors: Seq<Seq<V>>,
    bounds: Seq<V>,
    res: Option<V>,
) -> bool {
    exists|acc: Seq<V>| #[trigger]
        adds_up(val, vectors, acc) && is_quantile(phi, acc, bounds, res)
}

proof fn slots_have_quantiles<V: Number>(
    val: spec_fn(V) -> real,
    phi: V,
    vectors: Seq<Seq<V>>,
    bounds: Seq<V>,
    res: Option<V>,
)
    requires
        exact(val),
        slot_quantile(phi, vectors, bounds, res),
    ensures
        sums_have_quantile(val, phi, vectors, bounds, res),
{
    let acc = choose|acc: Seq<V>| #[trigger]
        buckets_summed(vectors, acc) && is_quantile(phi, acc, bounds, res);
    buckets_add_up(val, vectors, acc);
}

proof fn timed_points<V>(times: Seq<i64>, results: Seq<Option<V>>)
    requires
        results.len() == times.len(),
        forall|i: int, j: int|
            0 <= i < j < times.len() ==> #[trigger] times[i] < #[trigger] times[j],
    ensures
        forall|k: int|
            0 <= k < timed(times, results).len() ==> exists|i: int|
                0 <= i < times.len() && (#[trigger] times[i]) == (
                #[trigger] timed(times, results)[k]).0 && results[i] == Some(
                    timed(times, results)[k].1,
                ),
        forall|i: int|
            0 <= i < times.len() && (#[trigger] results[i]) is Some ==> exists|k: int|
                0 <= k < timed(times, results).len() && (#[trigger] timed(times, results)[k]).0
                    == times[i],
        forall|i: int, j: int|
            0 <= i < j < timed(times, results).len() ==> (#[trigger] timed(times, results)[i]).0 < (
            #[trigger] timed(times, results)[j]).0,
    decreases times.len(),
{
    if times.len() > 0 {
        let (t, r) = (times.drop_last(), results.drop_last());
        let last = times.len() - 1;
        timed_points(t, r);
        let rest = timed(t, r);
        let all = timed(times, results);
        assert(times[last] == times.last());
        assert(results[last] == results.last());
        assert forall|k: int| 0 <= k < all.len() implies exists|i: int|
            0 <= i < times.len() && (#[trigger] times[i]) == (#[trigger] all[k]).0 && results[i]
                == Some(all[k].1) by {
            if k < rest.len() {
                assert(all[k] == rest[k]);
                let i = choose|i: int|
                    0 <= i < t.len() && (#[trigger] t[i]) == rest[k].0 && r[i] == Some(rest[k].1);
                assert(times[i] == t[i]);
            } else {
                assert(times[last] == all[k].0);
            }
        }
        assert forall|i: int| 0 <= i < times.len() && (
        #[trigger] results[i]) is Some implies exists|k: int|
            0 <= k < all.len() && (#[trigger] all[k]).0 == times[i] by {
            if i < last {
                assert(t[i] == times[i]);
                assert(r[i] is Some);
                let k = choose|k: int| 0 <= k < rest.len() && (#[trigger] rest[k]).0 == t[i];
                assert(all[k] == rest[k]);
            } else {
                assert(all[rest.len() as int].0 == times[i]);
            }
        }
        assert forall|i: int, j: int| 0 <= i < j < all.len() implies (#[trigger] all[i]).0 < (
        #[trigger] all[j]).0 by {
            assert(all[i] == rest[i]);
            let m = choose|m: int|
                0 <= m < t.len() && (#[trigger] t[m]) == rest[i].0 && r[m] == Some(rest[i].1);
            assert(times[m] == t[m]);
            if j < rest.len() {
                assert(all[j] == rest[j]);
            } else {
                assert(times[m] < times[last]);
            }
        }
    }
}

proof fn groups_are_quantiles<V: Number>(
    val: spec_fn(V) -> real,
    phi: V,
    d: Seq<RowView<V>>,
    key: Seq<char>,
    s: SeriesView<V>,
)
    requires
        exact(val),
        labels_are_finite(d),
        d.len() <= usize::MAX,
        quantile_group(phi, d, key, s),
    ensures
        key == rendered(s.labels),
        is_quantile_of_rows(val, phi, d, s),
{
    first_rows_are_first(d, key);
    let first = first_row(keys_of(d), key)->0;
    let (times, results) = choose|times: Seq<i64>, results: Seq<Option<V>>| #[trigger]
        are_times(keys_of(d), key, times) && #[trigger] slot_quantiles(
            phi,
            d,
            key,
            d[first].bounds,
            times,
            results,
        ) && s.points == timed(times, results);
    timed_points(times, results);
    let bounds = d[first].bounds;
    assert(d[first].labels.dom().finite());
    assert forall|i: int| 0 <= i < times.len() implies sums_have_quantile(
        val,
        phi,
        member_counts(d, s.labels, #[trigger] times[i]),
        bounds,
        results[i],
    ) by {
        rows_are_members(d, s.labels, times[i]);
        slots_have_quantiles(
            val,
            phi,
            counts_at(d, rows_at(keys_of(d), key, times[i])),
            bounds,
            results[i],
        );
    }
    assert forall|j: int| 0 <= j < s.points.len() implies sums_have_quantile(
        val,
        phi,
        member_counts(d, s.labels, (#[trigger] s.points[j]).0),
        bounds,
        Some(s.points[j].1),
    ) by {
        let i = choose|i: int|
            0 <= i < times.len() && (#[trigger] times[i]) == s.points[j].0 && results[i] == Some(
                s.points[j].1,
            );
        assert(times[i] == s.points[j].0);
    }
    assert forall|j: int| 0 <= j < first implies (#[trigger] d[j]).labels != s.labels by {
        assert(rendered(d[j].labels) != key);
    }
    assert forall|i: int|
        #![trigger d[i]]
        0 <= i < d.len() && d[i].labels == s.labels implies (exists|j: int|
        0 <= j < s.points.len() && (#[trigger] s.points[j]).0 == d[i].t) || sums_have_quantile(
        val,
        phi,
        member_counts(d, s.labels, d[i].t),
        bounds,
        None,
    ) by {
        rows_at_has(d, key, i);
        assert(times.contains(d[i].t));
        let m = choose|m: int| 0 <= m < times.len() && times[m] == d[i].t;
        assert(times[m] == d[i].t);
        assert(results[m] is Some || results[m] is None);
    }
}

proof fn rows_at_has<V>(d: Seq<RowView<V>>, key: Seq<char>, i: int)
    requires
        0 <= i < d.len(),
        rendered(d[i].labels) == key,
    ensures
        rows_at(keys_of(d), key, d[i].t).len() > 0,
    decreases d.len(),
{
    let rest = d.drop_last();
    assert(keys_of(d).drop_last() =~= keys_of(rest));
    if i < d.len() - 1 {
        assert(rest[i] == d[i]);
        rows_at_has(rest, key, i);
    }
}

/// Whether there is a series with a label set.
pub open spec fn has_series<V>(out: Seq<SeriesView<V>>, labels: LabelMap) -> bool {
    exists|k: int| 0 <= k < out.len() && (#[trigger] out[k]).labels == labels
}

/// A quantile query has one series for each label set of its rows, and each of them is the
/// quantile of the sums of the counts of the rows with its labels, time by time. This is so
/// where the operations are exact.
pub proof fn rows_are_summed_by_labels_and_time<V: Number>(
    val: spec_fn(V) -> real,
    phi: V,
    d: Seq<RowView<V>>,
    out: Seq<SeriesView<V>>,
)
    requires
        exact(val),
        labels_are_finite(d),
        d.len() <= usize::MAX,
        quantile_series(phi, d, out),
    ensures
        forall|i: int| 0 <= i < out.len() ==> is_quantile_of_rows(val, phi, d, #[trigger] out[i]),
        forall|i: int| 0 <= i < d.len() ==> has_series(out, (#[trigger] d[i]).labels),
        forall|i: int, j: int|
            0 <= i < j < out.len() ==> (#[trigger] out[i]).labels != (#[trigger] out[j]).labels,
{
    let groups = choose|groups: Seq<Seq<char>>| #[trigger]
        are_groups(keys_of(d), groups) && out.len() == groups.len() && forall|i: int|
            0 <= i < groups.len() ==> quantile_group(phi, d, groups[i], #[trigger] out[i]);
    assert forall|i: int| 0 <= i < out.len() implies is_quantile_of_rows(
        val,
        phi,
        d,
        #[trigger] out[i],
    ) && groups[i] == rendered(out[i].labels) by {
        groups_are_quantiles(val, phi, d, groups[i], out[i]);
    }
    assert forall|i: int| 0 <= i < d.len() implies has_series(out, (#[trigger] d[i]).labels) by {
        let key = rendered(d[i].labels);
        first_rows_are_first(d, key);
        assert(among(groups, key));
        let k = choose|k: int| 0 <= k < groups.len() && #[trigger] groups[k] == key;
        assert(quantile_group(phi, d, groups[k], out[k]));
        let first = first_row(keys_of(d), key)->0;
        assert(out[k].labels == d[first].labels);
        keys_tell_label_sets_apart(d[first].labels, d[i].labels);
    }
    assert forall|i: int, j: int| 0 <= i < j < out.len() implies (#[trigger] out[i]).labels != (
    #[trigger] out[j]).labels by {
        assert(groups[i] == rendered(out[i].labels));
        assert(groups[j] == rendered(out[j].labels));
        assert(precedes(groups[i], groups[j]));
        precedes_irreflexive(groups[i]);
    }
}

/// Whether `m` holds the labels of a row: of each name the value in its column, where it has
/// one.
pub open spec fn has_row_labels(
    names: Seq<Seq<char>>,
    values: Seq<Option<String>>,
    m: LabelMap,
) -> bool {
    &&& forall|j: int|
        0 <= j < names.len() ==> (m.dom().contains(#[trigger] names[j]) <==> j < values.len()
            && values[j] is Some)
    &&& forall|j: int|
        0 <= j < names.len() && j < values.len() && values[j] is Some ==> m[#[trigger] names[j]]
            == values[j]->0@
    &&& forall|k: Seq<char>| #[trigger] m.dom().contains(k) ==> names.contains(k)
}

proof fn rows_have_their_labels(names: Seq<Seq<char>>, values: Seq<Option<String>>)
    requires
        names.no_duplicates(),
    ensures
        has_row_labels(names, values, row_labels(names, values)),
    decreases names.len(),
{
    if names.len() > 0 {
        let rest = names.drop_last();
        let last = names.len() - 1;
        assert(rest.no_duplicates());
        rows_have_their_labels(rest, values);
        let (m, n) = (row_labels(rest, values), row_labels(names, values));
        assert(names[last] == names.last());
        assert(!rest.contains(names.last())) by {
            if rest.contains(names.last()) {
                let j = choose|j: int| 0 <= j < rest.len() && rest[j] == names.last();
                assert(names[j] == names[last]);
            }
        }
        assert(!m.dom().contains(names.last()));
        assert forall|j: int| 0 <= j < names.len() implies (n.dom().contains(#[trigger] names[j])
            <==> j < values.len() && values[j] is Some) by {
            if j < last {
                assert(rest[j] == names[j]);
                assert(names[j] != names[last]);
            }
        }
        assert forall|j: int|
            0 <= j < names.len() && j < values.len() && values[j] is Some implies n[
            #[trigger] names[j]] == values[j]->0@ by {
            if j < last {
                assert(rest[j] == names[j]);
                assert(names[j] != names[last]);
            }
        }
        assert forall|k: Seq<char>| #[trigger] n.dom().contains(k) implies names.contains(k) by {
            if k != names.last() {
                let j = choose|j: int| 0 <= j < rest.len() && rest[j] == k;
                assert(names[j] == k);
            }
        }
    }
}

proof fn row_labels_are_finite(names: Seq<Seq<char>>, values: Seq<Option<String>>)
    ensures
        row_labels(names, values).dom().finite(),
    decreases names.len(),
{
    if names.len() > 0 {
        row_labels_are_finite(names.drop_last(), values);
    }
}

/// The rows that take part are those with a time and at least one count, in their order.
/// Each keeps its time, its labels, its counts and its bounds. Returns their places.
pub proof fn usable_rows_take_part<V: Number>(
    names: Seq<Seq<char>>,
    rows: Seq<HistRow>,
    d: Seq<RowView<V>>,
) -> (at: Seq<int>)
    requires
        names.no_duplicates(),
        rows_read(names, rows, d),
    ensures
        are_places(at, rows.len()),
        d.len() == at.len(),
        labels_are_finite(d),
        forall|i: int|
            #![trigger at[i]]
            0 <= i < at.len() ==> rows[at[i]].time == Some(d[i].t) && has_row_labels(
                names,
                rows[at[i]].labels@,
                d[i].labels,
            ) && d[i].counts.len() > 0 && are_doubles(doubles_of(rows[at[i]].counts), d[i].counts)
                && are_doubles(doubles_of(rows[at[i]].bounds), d[i].bounds),
        forall|i: int|
            0 <= i < rows.len() && !at.contains(i) ==> (#[trigger] rows[i]).time is None
                || doubles_of(rows[i].counts).len() == 0,
    decreases rows.len(),
{
    if rows.len() == 0 {
        Seq::empty()
    } else {
        let n = rows.len() - 1;
        let rest = rows.drop_last();
        if is_usable(rows.last()) {
            let before = usable_rows_take_part(names, rest, d.drop_last());
            let at = before.push(n);
            let x = d.last();
            assert(row_read(names, rows.last(), x));
            rows_have_their_labels(names, rows.last().labels@);
            row_labels_are_finite(names, rows.last().labels@);
            assert forall|i: int| 0 <= i < d.len() implies (
            #[trigger] d[i]).labels.dom().finite() by {
                if i < d.len() - 1 {
                    assert(d.drop_last()[i] == d[i]);
                } else {
                    assert(d[i] == x);
                }
            }
            assert forall|i: int|
                #![trigger at[i]]
                0 <= i < at.len() implies rows[at[i]].time == Some(d[i].t) && has_row_labels(
                names,
                rows[at[i]].labels@,
                d[i].labels,
            ) && d[i].counts.len() > 0 && are_doubles(doubles_of(rows[at[i]].counts), d[i].counts)
                && are_doubles(doubles_of(rows[at[i]].bounds), d[i].bounds) by {
                if i < before.len() {
                    assert(at[i] == before[i]);
                    assert(rest[before[i]] == rows[before[i]]);
                    assert(d.drop_last()[i] == d[i]);
                } else {
                    assert(d[i] == x);
                    assert(rows[n] == rows.last());
                }
            }
            assert forall|i: int| 0 <= i < rows.len() && !at.contains(i) implies (
            #[trigger] rows[i]).time is None || doubles_of(rows[i].counts).len() == 0 by {
                assert(at[before.len() as int] == n);
                if i < n {
                    assert(rest[i] == rows[i]);
                    if before.contains(i) {
                        let j = choose|j: int| 0 <= j < before.len() && before[j] == i;
                        assert(at[j] == i);
                    }
                }
            }
            at
        } else {
            let at = usable_rows_take_part(names, rest, d);
            assert forall|i: int|
                #![trigger at[i]]
                0 <= i < at.len() implies rows[at[i]] == rest[at[i]] by {}
            assert forall|i: int| 0 <= i < rows.len() && !at.contains(i) implies (
            #[trigger] rows[i]).time is None || doubles_of(rows[i].counts).len() == 0 by {
                if i < n {
                    assert(rest[i] == rows[i]);
                } else {
                    assert(rows[i] == rows.last());
                }
            }
            at
        }
    }
}

proof fn running_counts_add_up<V: Number>(
    val: spec_fn(V) -> real,
    d: RowView<V>,
    zero: V,
    out: Seq<EntryView<V>>,
    i: int,
)
    requires
        exact(val),
        val(zero) == 0real,
        row_entries(d, zero, out),
        out.len() == d.counts.len(),
        0 <= i < out.len(),
    ensures
        val(out[i].value) == sum_of(val, d.counts, i + 1),
    decreases i,
{
    assert(entry_at(d, zero, out, i));
    assert(sum_of(val, d.counts, 0) == 0real);
    assert(sum_of(val, d.counts, i + 1) == sum_of(val, d.counts, i) + val(d.counts[i]));
    if i > 0 {
        running_counts_add_up(val, d, zero, out, i - 1);
    }
}

/// A row of a heatmap has one entry for each bucket: the number of observations up to the
/// bound of that bucket, all earlier buckets included, under the row's labels and the text
/// of the bound; the last one, which has no bound, under `+Inf`.
pub proof fn heatmap_buckets_are_cumulative<V: Number>(
    val: spec_fn(V) -> real,
    d: RowView<V>,
    out: Seq<EntryView<V>>,
    i: int,
)
    requires
        exact(val),
        row_exploded(d, out),
        0 <= i < d.counts.len(),
    ensures
        out.len() == d.counts.len(),
        out[i].t == d.t,
        val(out[i].value) == total(numbers(val, d.counts.take(i + 1))),
        out[i].labels.dom().contains("le"@),
        forall|k: Seq<char>|
            k != "le"@ ==> (#[trigger] out[i].labels.dom().contains(k) <==> d.labels.dom().contains(
                k,
            )) && (d.labels.dom().contains(k) ==> out[i].labels[k] == d.labels[k]),
        i >= d.bounds.len() ==> out[i].labels["le"@] == "+Inf"@,
        i < d.bounds.len() ==> exists|s: String| #[trigger]
            call_ensures(V::text, (d.bounds[i],), s) && out[i].labels["le"@] == s@,
{
    let zero = choose|zero: V| #[trigger] counted(0, zero) && row_entries(d, zero, out);
    assert(val(zero) == 0real);
    running_counts_add_up(val, d, zero, out, i);
    sums_are_totals(val, d.counts, i + 1);
    assert(entry_at(d, zero, out, i));
    let le = choose|le: Seq<char>| #[trigger]
        is_le(d.bounds, i, le) && out[i].labels == d.labels.insert("le"@, le);
    assert(out[i].labels["le"@] == le);
    if i < d.bounds.len() {
        let s = choose|s: String| #[trigger]
            call_ensures(V::text, (d.bounds[i],), s) && s@ == le;
        assert(call_ensures(V::text, (d.bounds[i],), s));
    }
}

/// Whether nanoseconds become seconds exactly.
pub open spec fn exact_seconds<V: Number>(val: spec_fn(V) -> real) -> bool {
    forall|ns: i64, x: V| #[trigger]
        call_ensures(V::of_nanos, (ns,), x) ==> val(x) == (ns as int) as real / 1_000_000_000real
}

/// The rate from one cumulative count to the next is what was added, per second that
/// passed; where the count fell it has started over, and all of it was added.
pub proof fn heatmap_rates_are_per_second<V: Number>(
    val: spec_fn(V) -> real,
    t0: i64,
    v0: V,
    t1: i64,
    v1: V,
    res: Option<V>,
)
    requires
        exact(val),
        exact_seconds(val),
        t0 < t1,
        t1 - t0 <= i64::MAX,
        rate_between(t0, v0, t1, v1, res),
    ensures
        res is Some,
        ({
            let seconds = (t1 - t0) as real / 1_000_000_000real;
            val(res->0) == if val(v1) >= val(v0) {
                (val(v1) - val(v0)) / seconds
            } else {
                val(v1) / seconds
            }
        }),
{
    let (zero, dt, passed) = choose|zero: V, dt: V, passed: bool|
        {
            &&& #[trigger] counted(0, zero)
            &&& #[trigger] call_ensures(V::of_nanos, (span_ns(t0, t1),), dt)
            &&& #[trigger] compared(Comparison::Greater, dt, zero, passed)
            &&& if passed {
                exists|grew: bool, delta: V|
                    {
                        &&& #[trigger] compared(Comparison::GreaterOrEqual, v1, v0, grew)
                        &&& if grew {
                            calculated(Arithmetic::Sub, v1, v0, delta)
                        } else {
                            delta == v1
                        }
                        &&& res is Some
                        &&& #[trigger] calculated(Arithmetic::Div, delta, dt, res->0)
                    }
            } else {
                res is None
            }
        };
    assert(val(zero) == 0real);
    let n = (t1 - t0) as real;
    assert(val(dt) == n / 1_000_000_000real);
    assert(n / 1_000_000_000real > 0real) by (nonlinear_arith)
        requires
            n > 0real,
    ;
    assert(passed);
    let (grew, delta) = choose|grew: bool, delta: V|
        {
            &&& #[trigger] compared(Comparison::GreaterOrEqual, v1, v0, grew)
            &&& if grew {
                calculated(Arithmetic::Sub, v1, v0, delta)
            } else {
                delta == v1
            }
            &&& res is Some
            &&& #[trigger] calculated(Arithmetic::Div, delta, dt, res->0)
        };
    assert(grew == (val(v1) >= val(v0)));
}

/// The entries of a bucket at a time are added up, and the rates run from each time to the
/// next: the first time has none.
pub proof fn heatmap_cells_add_up<V: Number>(
    val: spec_fn(V) -> real,
    e: Seq<EntryView<V>>,
    key: Seq<char>,
    times: Seq<i64>,
    values: Seq<V>,
    results: Seq<Option<V>>,
    j: int,
)
    requires
        exact(val),
        e.len() <= usize::MAX,
        cell_totals(e, key, times, values),
        rates_are(times, values, results),
        0 <= j < times.len(),
    ensures
        val(values[j]) == total(
            numbers(
                val,
                e.filter(
                    |x: EntryView<V>| rendered(x.labels) == key && x.t == times[j],
                ).map_values(|x: EntryView<V>| x.value),
            ),
        ),
        results.len() == times.len() - 1,
        j > 0 ==> rate_between(times[j - 1], values[j - 1], times[j], values[j], results[j - 1]),
{
    let t = times[j];
    entries_are_members(e, key, t);
    sums_add_up(val, entry_values(e, rows_at(entry_keys(e), key, t)), values[j]);
    if j > 0 {
        assert(rate_between(times[j - 1], values[j - 1], times[j], values[j], results[j - 1]));
    }
}

proof fn entries_are_members<V>(e: Seq<EntryView<V>>, key: Seq<char>, t: i64)
    requires
        e.len() <= usize::MAX,
    ensures
        entry_values(e, rows_at(entry_keys(e), key, t)) == e.filter(
            |x: EntryView<V>| rendered(x.labels) == key && x.t == t,
        ).map_values(|x: EntryView<V>| x.value),
    decreases e.len(),
{
    reveal(Seq::filter);
    let pred = |x: EntryView<V>| rendered(x.labels) == key && x.t == t;
    let f = |x: EntryView<V>| x.value;
    if e.len() == 0 {
        assert(e.filter(pred).map_values(f) =~= Seq::<V>::empty());
        assert(entry_values(e, rows_at(entry_keys(e), key, t)) =~= Seq::<V>::empty());
    } else {
        let (rest, x) = (e.drop_last(), e.last());
        assert(entry_keys(e).drop_last() =~= entry_keys(rest));
        entries_are_members(rest, key, t);
        let before = rows_at(entry_keys(rest), key, t);
        rows_are_in_range(entry_keys(rest), key, t);
        assert(entry_values(e, before) =~= entry_values(rest, before)) by {
            assert forall|i: int| 0 <= i < before.len() implies e[(
            #[trigger] before[i]) as int].value == rest[before[i] as int].value by {
                assert(before[i] < rest.len());
            }
        }
        if pred(x) {
            let more = before.push((e.len() - 1) as usize);
            assert(entry_values(e, more) =~= entry_values(e, before).push(x.value));
            assert(rest.filter(pred).push(x).map_values(f) =~= rest.filter(pred).map_values(
                f,
            ).push(x.value));
        }
    }
}

/// A quantile query over a range takes its quantile and its labels from the query, and gives
/// one series for each label set of the rows that take part: the quantile of the sums of
/// their counts, time by time. Returns the quantile, and the rows that take part.
pub proof fn quantile_queries_sum_their_rows<V: Number>(
    val: spec_fn(V) -> real,
    h: HistView,
    rows: Seq<HistRow>,
    out: Seq<SeriesView<V>>,
) -> (w: (V, Seq<RowView<V>>))
    requires
        exact(val),
        h.group_by.no_duplicates(),
        h.topk is None,
        rows.len() <= usize::MAX,
        quantile_answer(h, rows, out),
    ensures
        call_ensures(V::of_bits, (h.phi,), w.0),
        rows_read(h.group_by, rows, w.1),
        forall|i: int|
            0 <= i < out.len() ==> is_quantile_of_rows(val, w.0, w.1, #[trigger] out[i]),
        forall|i: int| 0 <= i < w.1.len() ==> has_series(out, (#[trigger] w.1[i]).labels),
        forall|i: int, j: int|
            0 <= i < j < out.len() ==> (#[trigger] out[i]).labels != (#[trigger] out[j]).labels,
{
    let (phi, d, all) = choose|phi: V, d: Seq<RowView<V>>, all: Seq<SeriesView<V>>|
        {
            &&& #[trigger] call_ensures(V::of_bits, (h.phi,), phi)
            &&& #[trigger] rows_read(h.group_by, rows, d)
            &&& #[trigger] quantile_series(phi, d, all)
            &&& match h.topk {
                None => out == all,
                Some(k) => top_series(Score::Last, k.0, k.1, all, out),
            }
        };
    let at = usable_rows_take_part(h.group_by, rows, d);
    places_are_few(at, rows.len());
    rows_are_summed_by_labels_and_time(val, phi, d, out);
    (phi, d)
}

proof fn places_are_few(at: Seq<int>, n: nat)
    requires
        are_places(at, n),
    ensures
        at.len() <= n,
    decreases n,
{
    if at.len() > 0 {
        let last = at.len() - 1;
        let rest = at.drop_last();
        assert(0 <= at[last] < n);
        assert(are_places(rest, at[last] as nat)) by {
            assert forall|j: int| 0 <= j < rest.len() implies 0 <= #[trigger] rest[j] < at[last] by {
                assert(at[j] < at[last]);
            }
            assert forall|i: int, j: int| 0 <= i < j < rest.len() implies #[trigger] rest[i]
                < #[trigger] rest[j] by {
                assert(at[i] < at[j]);
            }
        }
        places_are_few(rest, at[last] as nat);
    }
}

/// An instant quantile query gives, for each row with a quantile, a sample with the name of
/// the metric and the service of the row, whose value is the quantile of the counts of that
/// row alone. Returns the quantile, and the places of the rows.
pub proof fn instant_quantiles_are_of_single_rows<V: Number>(
    bits: u64,
    name: Seq<char>,
    rows: Seq<LatestHist>,
    out: Seq<(LabelMap, V)>,
) -> (w: (V, Seq<int>))
    requires
        instant_quantile_answer(bits, name, rows, out),
    ensures
        call_ensures(V::of_bits, (bits,), w.0),
        are_places(w.1, rows.len()),
        out.len() == w.1.len(),
        forall|i: int|
            #![trigger w.1[i]]
            0 <= i < out.len() ==> row_has_quantile(w.0, rows[w.1[i]], Some(out[i].1))
                && out[i].0.dom().contains("__name__"@) && out[i].0["__name__"@] == name && (
            rows[w.1[i]].service matches Some(s) ==> out[i].0.dom().contains("service_name"@)
                && out[i].0["service_name"@] == s@) && forall|k: Seq<char>| #[trigger]
                out[i].0.dom().contains(k) ==> k == "__name__"@ || (k == "service_name"@
                    && rows[w.1[i]].service is Some),
        forall|i: int|
            0 <= i < rows.len() && !w.1.contains(i) ==> row_has_quantile(
                w.0,
                #[trigger] rows[i],
                None,
            ),
{
    reveal_strlit("__name__");
    reveal_strlit("service_name");
    assert("__name__"@.len() == 8 && "service_name"@.len() == 12);
    let (phi, parts) = choose|phi: V, parts: Seq<Option<(LabelMap, V)>>| #[trigger]
        call_ensures(V::of_bits, (bits,), phi) && #[trigger] hist_samples(phi, name, rows, parts)
            && out == present(parts);
    let at = places_of_present(parts);
    assert forall|i: int| 0 <= i < rows.len() implies hist_sample(
        phi,
        name,
        rows[i],
        #[trigger] parts[i],
    ) && row_has_quantile(
        phi,
        rows[i],
        match parts[i] {
            Some(p) => Some(p.1),
            None => None,
        },
    ) by {
        let (counts, bounds) = choose|counts: Seq<V>, bounds: Seq<V>|
            {
                &&& #[trigger] are_doubles(doubles_of(rows[i].counts), counts)
                &&& #[trigger] are_doubles(doubles_of(rows[i].bounds), bounds)
                &&& is_quantile(
                    phi,
                    counts,
                    bounds,
                    match parts[i] {
                        Some(p) => Some(p.1),
                        None => None,
                    },
                )
            };
        assert(are_doubles(doubles_of(rows[i].counts), counts));
    }
    assert forall|i: int|
        #![trigger at[i]]
        0 <= i < out.len() implies row_has_quantile(phi, rows[at[i]], Some(out[i].1))
        && out[i].0.dom().contains("__name__"@) && out[i].0["__name__"@] == name && (
    rows[at[i]].service matches Some(s) ==> out[i].0.dom().contains("service_name"@)
        && out[i].0["service_name"@] == s@) && forall|k: Seq<char>| #[trigger]
        out[i].0.dom().contains(k) ==> k == "__name__"@ || (k == "service_name"@
            && rows[at[i]].service is Some) by {
        assert(parts[at[i]] == Some(present(parts)[i]));
        assert(hist_sample(phi, name, rows[at[i]], parts[at[i]]));
    }
    assert forall|i: int| 0 <= i < rows.len() && !at.contains(i) implies row_has_quantile(
        phi,
        #[trigger] rows[i],
        None,
    ) by {
        assert(parts[i] is None);
    }
    (phi, at)
}

/// Whether a row has a quantile, or none, of its own counts and bounds.
pub open spec fn row_has_quantile<V: Number>(phi: V, row: LatestHist, res: Option<V>) -> bool {
    exists|counts: Seq<V>, bounds: Seq<V>|
        {
            &&& #[trigger] are_doubles(doubles_of(row.counts), counts)
            &&& #[trigger] are_doubles(doubles_of(row.bounds), bounds)
            &&& is_quantile(phi, counts, bounds, res)
        }
}

/// The entries of rows are those of each row, one after another. Returns them row by row.
pub proof fn rows_are_exploded_one_by_one<V: Number>(
    d: Seq<RowView<V>>,
    e: Seq<EntryView<V>>,
) -> (parts: Seq<Seq<EntryView<V>>>)
    requires
        exploded(d, e),
    ensures
        parts.len() == d.len(),
        e == parts.flatten_alt(),
        forall|i: int| 0 <= i < d.len() ==> row_exploded(d[i], #[trigger] parts[i]),
    decreases d.len(),
{
    if d.len() == 0 {
        let none = Seq::<Seq<EntryView<V>>>::empty();
        assert(none.flatten_alt() =~= e);
        none
    } else {
        let n = e.len() - d.last().counts.len();
        let (head, tail) = (e.take(n), e.skip(n));
        assert(exploded(d.drop_last(), head) && row_exploded(d.last(), tail));
        let rest = rows_are_exploded_one_by_one(d.drop_last(), head);
        parts_are_appended(d, rest, tail);
        assert(rest.push(tail).flatten_alt() == e) by {
            assert(rest.push(tail).drop_last() =~= rest);
            assert(head + tail =~= e);
        }
        rest.push(tail)
    }
}

proof fn parts_are_appended<V: Number>(
    d: Seq<RowView<V>>,
    rest: Seq<Seq<EntryView<V>>>,
    tail: Seq<EntryView<V>>,
)
    requires
        d.len() > 0,
        rest.len() == d.len() - 1,
        forall|i: int| 0 <= i < rest.len() ==> row_exploded(d.drop_last()[i], #[trigger] rest[i]),
        row_exploded(d.last(), tail),
    ensures
        rest.push(tail).len() == d.len(),
        forall|i: int| 0 <= i < d.len() ==> row_exploded(d[i], #[trigger] rest.push(tail)[i]),
{
    assert forall|i: int| 0 <= i < d.len() implies row_exploded(
        d[i],
        #[trigger] rest.push(tail)[i],
    ) by {
        if i < rest.len() {
            assert(rest.push(tail)[i] == rest[i]);
            assert(d.drop_last()[i] == d[i]);
        }
    }
}

/// A heatmap has one series for each label set of its entries, with a point at each time of
/// these but the first: the rate per second from the sum of the entries at the time before
/// to the sum of those at that time. This is so where the operations are exact, and the
/// times are close enough to be told apart in nanoseconds.
pub proof fn heatmap_series_are_rates<V: Number>(
    val: spec_fn(V) -> real,
    e: Seq<EntryView<V>>,
    out: Seq<SeriesView<V>>,
    i: int,
    k: int,
)
    requires
        exact(val),
        exact_seconds(val),
        e.len() <= usize::MAX,
        heat_series(e, out),
        0 <= i < out.len(),
        0 <= k < out[i].points.len(),
        forall|x: int, y: int|
            0 <= x < e.len() && 0 <= y < e.len() ==> (#[trigger] e[x]).t - (#[trigger] e[y]).t
                <= i64::MAX,
    ensures
        ({
            let key = rendered(out[i].labels);
            let t1 = out[i].points[k].0;
            exists|t0: i64, v0: real, v1: real|
                {
                    &&& t0 < t1
                    &&& #[trigger] is_cell(val, e, key, t0, v0)
                    &&& #[trigger] is_cell(val, e, key, t1, v1)
                    &&& forall|x: int|
                        0 <= x < e.len() && rendered((#[trigger] e[x]).labels) == key ==> e[x].t
                            <= t0 || e[x].t >= t1
                    &&& val(out[i].points[k].1) == if v1 >= v0 {
                        (v1 - v0) / ((t1 - t0) as real / 1_000_000_000real)
                    } else {
                        v1 / ((t1 - t0) as real / 1_000_000_000real)
                    }
                }
        }),
{
    let groups = choose|groups: Seq<Seq<char>>| #[trigger]
        are_groups(entry_keys(e), groups) && out.len() == groups.len() && forall|i: int|
            0 <= i < groups.len() ==> heat_group(e, groups[i], #[trigger] out[i]);
    let s = out[i];
    let key = groups[i];
    assert(heat_group(e, key, s));
    first_row_is_in_range(entry_keys(e), key);
    let first = first_row(entry_keys(e), key)->0;
    assert(entry_keys(e)[first].0 == rendered(e[first].labels));
    assert(key == rendered(s.labels));
    let (times, values, results) = choose|times: Seq<i64>, values: Seq<V>, results: Seq<Option<V>>|
        #[trigger] are_times(entry_keys(e), key, times) && #[trigger] cell_totals(
            e,
            key,
            times,
            values,
        ) && #[trigger] rates_are(times, values, results) && s.points == timed(
            times.skip(1),
            results,
        );
    let later = times.skip(1);
    assert forall|a: int, b: int| 0 <= a < b < later.len() implies #[trigger] later[a]
        < #[trigger] later[b] by {
        assert(times[a + 1] < times[b + 1]);
    }
    timed_points(later, results);
    let j = choose|j: int|
        0 <= j < later.len() && (#[trigger] later[j]) == s.points[k].0 && results[j] == Some(
            s.points[k].1,
        );
    let (t0, t1) = (times[j], times[j + 1]);
    assert(later[j] == t1);
    heatmap_cells_add_up(val, e, key, times, values, results, j);
    heatmap_cells_add_up(val, e, key, times, values, results, j + 1);
    assert(is_cell(val, e, key, t0, val(values[j])));
    assert(is_cell(val, e, key, t1, val(values[j + 1])));
    cells_have_entries(e, key, t0);
    cells_have_entries(e, key, t1);
    let x = choose|x: int| 0 <= x < e.len() && (#[trigger] e[x]).t == t0;
    let y = choose|y: int| 0 <= y < e.len() && (#[trigger] e[y]).t == t1;
    assert(e[y].t - e[x].t <= i64::MAX);
    heatmap_rates_are_per_second(val, t0, values[j], t1, values[j + 1], results[j]);
    assert forall|x: int|
        0 <= x < e.len() && rendered((#[trigger] e[x]).labels) == key implies e[x].t <= t0
        || e[x].t >= t1 by {
        entries_have_cells(e, key, x);
        assert(times.contains(e[x].t));
        let m = choose|m: int| 0 <= m < times.len() && times[m] == e[x].t;
        if m > j + 1 {
            assert(times[j + 1] < times[m]);
        } else if m < j {
            assert(times[m] < times[j]);
        }
    }
}

/// Whether a number is the sum of the entries of a key at a time.
pub open spec fn is_cell<V>(
    val: spec_fn(V) -> real,
    e: Seq<EntryView<V>>,
    key: Seq<char>,
    t: i64,
    sum: real,
) -> bool {
    sum == total(
        numbers(
            val,
            e.filter(|x: EntryView<V>| rendered(x.labels) == key && x.t == t).map_values(
                |x: EntryView<V>| x.value,
            ),
        ),
    )
}

proof fn cells_have_entries<V>(e: Seq<EntryView<V>>, key: Seq<char>, t: i64)
    requires
        rows_at(entry_keys(e), key, t).len() > 0,
    ensures
        exists|x: int| 0 <= x < e.len() && (#[trigger] e[x]).t == t,
    decreases e.len(),
{
    if e.len() > 0 {
        let rest = e.drop_last();
        assert(entry_keys(e).drop_last() =~= entry_keys(rest));
        if rows_at(entry_keys(rest), key, t).len() > 0 {
            cells_have_entries(rest, key, t);
            let x = choose|x: int| 0 <= x < rest.len() && (#[trigger] rest[x]).t == t;
            assert(e[x].t == t);
        } else {
            assert(e[e.len() - 1].t == t);
        }
    }
}

proof fn entries_have_cells<V>(e: Seq<EntryView<V>>, key: Seq<char>, i: int)
    requires
        0 <= i < e.len(),
        rendered(e[i].labels) == key,
    ensures
        rows_at(entry_keys(e), key, e[i].t).len() > 0,
    decreases e.len(),
{
    let rest = e.drop_last();
    assert(entry_keys(e).drop_last() =~= entry_keys(rest));
    if i < e.len() - 1 {
        assert(rest[i] == e[i]);
        entries_have_cells(rest, key, i);
    }
}

} // verus!

//! `topk`/`bottomk`: whole series in the order of a score.
use crate::grid::Point;
use crate::number::Number;
use crate::series::{Series, SeriesView};
use vstd::prelude::*;

verus! {

/// Whether the item at `a` comes before the one at `b`: it ranks higher (or, where
/// `top` is false, lower), or it ranks the same and stands earlier.
pub open spec fn comes_before(ranks: Seq<i64>, top: bool, a: int, b: int) -> bool {
    if ranks[a] == ranks[b] {
        a < b
    } else if top {
        ranks[a] > ranks[b]
    } else {
        ranks[a] < ranks[b]
    }
}

/// Whether `order` holds each of the first `n` places once, in order.
pub open spec fn is_ranking(ranks: Seq<i64>, top: bool, n: int, order: Seq<usize>) -> bool {
    &&& order.len() == n
    &&& forall|i: int| 0 <= i < order.len() ==> (#[trigger] order[i]) < n
    &&& forall|i: int, j: int|
        0 <= i < j < order.len() ==> comes_before(
            ranks,
            top,
            (#[trigger] order[i]) as int,
            (#[trigger] order[j]) as int,
        )
}

/// Whether one rank comes before another.
fn outranks(top: bool, a: i64, b: i64) -> (r: bool)
    ensures
        r == if top {
            a > b
        } else {
            a < b
        },
{
    if top {
        a > b
    } else {
        a < b
    }
}

/// The places of the items in the order of their ranks.
fn ranking(ranks: &Vec<i64>, top: bool) -> (order: Vec<usize>)
    ensures
        is_ranking(ranks@, top, ranks@.len() as int, order@),
{
    let mut order: Vec<usize> = Vec::new();
    let mut i: usize = 0;
    while i < ranks.len()
        invariant
            i <= ranks@.len(),
            is_ranking(ranks@, top, i as int, order@),
        decreases ranks.len() - i,
    {
        let r = ranks[i];
        let mut at: usize = order.len();
        while at > 0 && outranks(top, r, ranks[order[at - 1]])
            invariant
                at <= order@.len(),
                i < ranks@.len(),
                r == ranks@[i as int],
                is_ranking(ranks@, top, i as int, order@),
                forall|j: int|
                    at <= j < order@.len() ==> comes_before(
                        ranks@,
                        top,
                        i as int,
                        (#[trigger] order@[j]) as int,
                    ),
            decreases at,
        {
            at = at - 1;
        }
        let ghost before = order@;
        order.insert(at, i);
        proof {
            let o = order@;
            assert forall|j: int| 0 <= j < at implies comes_before(
                ranks@,
                top,
                (#[trigger] before[j]) as int,
                i as int,
            ) by {
                if j < at - 1 {
                    assert(comes_before(ranks@, top, before[j] as int, before[at - 1] as int));
                }
            }
            assert forall|a: int, b: int| 0 <= a < b < o.len() implies comes_before(
                ranks@,
                top,
                (#[trigger] o[a]) as int,
                (#[trigger] o[b]) as int,
            ) by {
                let x = if a < at { a } else { a - 1 };
                let y = if b < at { b } else { b - 1 };
                if a != at {
                    assert(o[a] == before[x]);
                }
                if b != at {
                    assert(o[b] == before[y]);
                }
            }
            assert forall|a: int| 0 <= a < o.len() implies (#[trigger] o[a]) < i + 1 by {
                let x = if a < at { a } else { a - 1 };
                if a != at {
                    assert(o[a] == before[x]);
                }
            }
        }
        i = i + 1;
    }
    order
}

/// How many of `len` items a count keeps.
pub open spec fn kept_count(n: int, len: nat) -> int {
    if n < 0 {
        0
    } else if n > len {
        len as int
    } else {
        n
    }
}

/// Whether `chosen` holds the places of the first `n` items in the order of their
/// ranks.
pub open spec fn is_selection(ranks: Seq<i64>, top: bool, n: int, chosen: Seq<usize>) -> bool {
    exists|order: Seq<usize>| #[trigger]
        is_ranking(ranks, top, ranks.len() as int, order) && chosen == order.take(
            kept_count(n, ranks.len()),
        )
}

/// The places of the `n` items that rank highest (or lowest), in order.
pub fn select_top(ranks: &Vec<i64>, n: i64, top: bool) -> (chosen: Vec<usize>)
    ensures
        is_selection(ranks@, top, n as int, chosen@),
{
    let mut order = ranking(ranks, top);
    let ghost all = order@;
    let len: usize = order.len();
    if n < 0 {
        order.truncate(0);
        assert(order@ =~= all.take(0));
    } else if (n as u64) < len as u64 {
        order.truncate(n as usize);
        assert(order@ =~= all.take(n as int));
    } else {
        assert(all.take(len as int) =~= all);
    }
    order
}

/// What is kept comes before everything that is not, and nothing more is kept than
/// was asked for.
pub proof fn selection_keeps_the_best(
    ranks: Seq<i64>,
    top: bool,
    n: int,
    chosen: Seq<usize>,
    a: int,
    b: int,
)
    requires
        is_selection(ranks, top, n, chosen),
        0 <= a < ranks.len(),
        0 <= b < ranks.len(),
        chosen.contains(a as usize),
        !chosen.contains(b as usize),
        ranks.len() <= usize::MAX,
    ensures
        comes_before(ranks, top, a, b),
        chosen.len() == kept_count(n, ranks.len()),
{
    let order = choose|order: Seq<usize>| #[trigger]
        is_ranking(ranks, top, ranks.len() as int, order) && chosen == order.take(
            kept_count(n, ranks.len()),
        );
    let i = choose|i: int| 0 <= i < chosen.len() && chosen[i] == a as usize;
    assert(order[i] == a as usize);
    ranking_holds_all(ranks, top, order, b);
    let j = choose|j: int| 0 <= j < order.len() && order[j] == b as usize;
    if j < chosen.len() {
        assert(chosen[j] == b as usize);
    }
}

/// A ranking holds every place.
proof fn ranking_holds_all(ranks: Seq<i64>, top: bool, order: Seq<usize>, b: int)
    requires
        is_ranking(ranks, top, ranks.len() as int, order),
        0 <= b < ranks.len(),
        ranks.len() <= usize::MAX,
    ensures
        order.contains(b as usize),
{
    let n = ranks.len() as int;
    let ints = Seq::new(order.len(), |i: int| order[i] as int);
    assert forall|i: int, j: int| 0 <= i < j < ints.len() implies ints[i] != ints[j] by {
        assert(comes_before(ranks, top, order[i] as int, order[j] as int));
    }
    assert(ints.no_duplicates());
    ints.unique_seq_to_set();
    let full = vstd::set_lib::set_int_range(0, n);
    vstd::set_lib::lemma_int_range(0, n);
    assert(ints.to_set().subset_of(full)) by {
        assert forall|x: int| ints.to_set().contains(x) implies full.contains(x) by {
            let i = choose|i: int| 0 <= i < ints.len() && ints[i] == x;
            assert(order[i] < n);
        }
    }
    vstd::set_lib::lemma_subset_equality(ints.to_set(), full);
    assert(ints.to_set().contains(b));
    let i = choose|i: int| 0 <= i < ints.len() && ints[i] == b;
    assert(order[i] == b as usize);
}

/// Series, as values.
pub open spec fn list_view<V>(s: Seq<Series<V>>) -> Seq<SeriesView<V>> {
    Seq::new(s.len(), |i: int| s[i]@)
}

/// The series at the given places.
pub open spec fn picked<V>(s: Seq<SeriesView<V>>, chosen: Seq<usize>) -> Seq<SeriesView<V>> {
    Seq::new(chosen.len(), |i: int| s[chosen[i] as int])
}

/// Another copy of points.
pub fn copy_points<V: Copy>(points: &Vec<Point<V>>) -> (r: Vec<Point<V>>)
    ensures
        r@ == points@,
{
    let mut r: Vec<Point<V>> = Vec::new();
    let mut i: usize = 0;
    while i < points.len()
        invariant
            i <= points@.len(),
            r@ == points@.take(i as int),
        decreases points.len() - i,
    {
        r.push(points[i]);
        assert(points@.take(i + 1) =~= points@.take(i as int).push(points@[i as int]));
        i = i + 1;
    }
    assert(points@.take(points@.len() as int) =~= points@);
    r
}

/// The series at the given places.
fn pick<V: Copy>(s: &Vec<Series<V>>, chosen: &Vec<usize>) -> (r: Vec<Series<V>>)
    requires
        forall|i: int| 0 <= i < chosen@.len() ==> (#[trigger] chosen@[i]) < s@.len(),
    ensures
        list_view(r@) == picked(list_view(s@), chosen@),
{
    let mut r: Vec<Series<V>> = Vec::new();
    let ghost want = picked(list_view(s@), chosen@);
    let mut i: usize = 0;
    while i < chosen.len()
        invariant
            forall|j: int| 0 <= j < chosen@.len() ==> (#[trigger] chosen@[j]) < s@.len(),
            want == picked(list_view(s@), chosen@),
            i <= chosen@.len(),
            list_view(r@) =~= want.take(i as int),
        decreases chosen.len() - i,
    {
        let p = chosen[i];
        let x = Series { labels: s[p].labels.copy(), points: copy_points(&s[p].points) };
        let ghost before = r@;
        assert(x@ == want[i as int]);
        r.push(x);
        assert(list_view(r@) =~= list_view(before).push(x@));
        i = i + 1;
    }
    assert(want.take(chosen@.len() as int) =~= want);
    r
}

/// Whether `x` is the greatest of the values of the points, from the lowest value on.
pub open spec fn is_peak<V: Number>(points: Seq<Point<V>>, x: V) -> bool
    decreases points.len(),
{
    if points.len() == 0 {
        call_ensures(V::lowest, (), x)
    } else {
        exists|p: V|
            is_peak(points.drop_last(), p) && #[trigger] call_ensures(
                V::greatest,
                (p, points.last().1),
                x,
            )
    }
}

fn peak<V: Number>(points: &Vec<Point<V>>) -> (x: V)
    ensures
        is_peak(points@, x),
{
    let mut x = V::lowest();
    let mut i: usize = 0;
    while i < points.len()
        invariant
            i <= points@.len(),
            is_peak(points@.take(i as int), x),
        decreases points.len() - i,
    {
        let ghost before = x;
        x = V::greatest(x, points[i].1);
        proof {
            let next = points@.take(i + 1);
            assert(next.drop_last() =~= points@.take(i as int));
            assert(call_ensures(V::greatest, (before, next.last().1), x));
        }
        i = i + 1;
    }
    assert(points@.take(points@.len() as int) =~= points@);
    x
}

/// Whether `x` is the last of the values of the points, or the lowest value.
pub open spec fn is_last<V: Number>(points: Seq<Point<V>>, x: V) -> bool {
    if points.len() == 0 {
        call_ensures(V::lowest, (), x)
    } else {
        x == points.last().1
    }
}

fn last_value<V: Number>(points: &Vec<Point<V>>) -> (x: V)
    ensures
        is_last(points@, x),
{
    if points.len() == 0 {
        V::lowest()
    } else {
        points[points.len() - 1].1
    }
}

/// By what a series is ranked.
#[derive(Debug, Clone, Copy, PartialEq, Eq, Structural)]
pub enum Score {
    /// Its greatest value.
    Peak,
    /// Its last value.
    Last,
}

/// Whether `rank` ranks a series.
pub open spec fn ranked_by<V: Number>(score: Score, s: SeriesView<V>, rank: i64) -> bool {
    exists|x: V| #[trigger]
        call_ensures(V::rank, (x,), rank) && match score {
            Score::Peak => is_peak(s.points, x),
            Score::Last => is_last(s.points, x),
        }
}

/// Whether each rank ranks its series.
pub open spec fn ranks_of<V: Number>(score: Score, s: Seq<SeriesView<V>>, ranks: Seq<i64>) -> bool {
    ranks.len() == s.len() && forall|i: int|
        0 <= i < s.len() ==> ranked_by(score, s[i], #[trigger] ranks[i])
}

/// Whether `out` holds the `n` series that rank highest (or lowest), in order, each
/// with all its points and labels.
pub open spec fn top_series<V: Number>(
    score: Score,
    n: int,
    top: bool,
    s: Seq<SeriesView<V>>,
    out: Seq<SeriesView<V>>,
) -> bool {
    exists|ranks: Seq<i64>, chosen: Seq<usize>| #[trigger]
        ranks_of(score, s, ranks) && #[trigger] is_selection(ranks, top, n, chosen) && out == picked(
            s,
            chosen,
        )
}

/// Keep the N highest/lowest *series*, each with all its points and labels — not N
/// individual points.
pub fn keep_top<V: Number>(series: Vec<Series<V>>, n: i64, is_topk: bool, score: Score) -> (out: Vec<
    Series<V>,
>)
    ensures
        top_series(score, n as int, is_topk, list_view(series@), list_view(out@)),
{
    let ghost s = list_view(series@);
    let mut ranks: Vec<i64> = Vec::new();
    let mut i: usize = 0;
    while i < series.len()
        invariant
            s == list_view(series@),
            i <= series@.len(),
            ranks@.len() == i,
            forall|j: int| 0 <= j < i ==> ranked_by(score, s[j], #[trigger] ranks@[j]),
        decreases series.len() - i,
    {
        let x = match score {
            Score::Peak => peak(&series[i].points),
            Score::Last => last_value(&series[i].points),
        };
        let r = V::rank(x);
        assert(call_ensures(V::rank, (x,), r));
        assert(s[i as int].points == series@[i as int].points@);
        assert(ranked_by(score, s[i as int], r));
        ranks.push(r);
        i = i + 1;
    }
    let chosen = select_top(&ranks, n, is_topk);
    proof {
        let order = choose|order: Seq<usize>| #[trigger]
            is_ranking(ranks@, is_topk, ranks@.len() as int, order) && chosen@ == order.take(
                kept_count(n as int, ranks@.len()),
            );
        assert forall|k: int| 0 <= k < chosen@.len() implies (#[trigger] chosen@[k])
            < series@.len() by {
            assert(chosen@[k] == order[k]);
        }
        assert(ranks_of(score, s, ranks@));
    }
    pick(&series, &chosen)
}

} // verus!

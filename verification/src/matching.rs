//! Binary operators between vectors: which series match, and what they give.
use crate::grid::Point;
use crate::labels::{drop_name, kept_labels, KindView, Labels, MatchKind};
use crate::number::Number;
use crate::operators::{
    applied, apply_binop, scalar_op_scalar, scalars_combined, BinaryOp,
};
use crate::promql::{BinaryModifier, Cardinality, Grouping};
use crate::series::{
    gathered, is_ordered, put, samples_push, samples_view, series_list, series_view, vector,
    InstantVal, LabelMap, RangeSeries, RangeVal, Sample, Series, SeriesView,
};
use crate::text::{among, copied, owned, texts};
use crate::textmap::TextMap;
use std::collections::HashMap;
use vstd::prelude::*;

verus! {

/// The rule of matching that a binary operator's modifier gives: `on` the labels it
/// lists, `ignoring` those it lists, and without either all but the metric name.
pub open spec fn kind_of(m: Option<BinaryModifier>) -> KindView {
    match m {
        Some(b) => match b.matching {
            Some(Grouping::Include(l)) => KindView::On(texts(l@)),
            Some(Grouping::Exclude(l)) => KindView::Ignoring(texts(l@)),
            None => KindView::Ignoring(Seq::empty()),
        },
        None => KindView::Ignoring(Seq::empty()),
    }
}

fn nothing_ignored() -> (r: MatchKind)
    ensures
        r@ == KindView::Ignoring(Seq::empty()),
{
    let none: Vec<String> = Vec::new();
    assert(texts(none@) =~= Seq::<Seq<char>>::empty());
    MatchKind::Ignoring(none)
}

impl MatchKind {
    /// The rule of matching that a binary operator's modifier gives.
    pub fn from(modifier: &Option<BinaryModifier>) -> (r: MatchKind)
        ensures
            r@ == kind_of(*modifier),
    {
        match modifier {
            Some(b) => match &b.matching {
                Some(Grouping::Include(l)) => MatchKind::On(copied(l)),
                Some(Grouping::Exclude(l)) => MatchKind::Ignoring(copied(l)),
                None => nothing_ignored(),
            },
            None => nothing_ignored(),
        }
    }
}

/// Group cardinality + labels copied from the "one" side (`group_left(…)` /
/// `group_right(…)`).
#[derive(Debug)]
pub enum Card {
    OneToOne,
    ManyToOne(Vec<String>),
    OneToMany(Vec<String>),
}

/// A group cardinality, as a value: whether the right operand is the "many" side,
/// and the labels copied from the "one" side.
pub struct CardView {
    pub group_right: bool,
    pub extra: Seq<Seq<char>>,
}

/// The group cardinality that a modifier gives; none for a set operator.
pub open spec fn card_of(m: Option<BinaryModifier>) -> Option<CardView> {
    match m {
        None => Some(CardView { group_right: false, extra: Seq::empty() }),
        Some(b) => match b.card {
            Cardinality::OneToOne => Some(CardView { group_right: false, extra: Seq::empty() }),
            Cardinality::ManyToOne(l) => Some(CardView { group_right: false, extra: texts(l@) }),
            Cardinality::OneToMany(l) => Some(CardView { group_right: true, extra: texts(l@) }),
            Cardinality::ManyToMany => None,
        },
    }
}

impl View for Card {
    type V = CardView;

    open spec fn view(&self) -> CardView {
        match self {
            Card::OneToOne => CardView { group_right: false, extra: Seq::empty() },
            Card::ManyToOne(l) => CardView { group_right: false, extra: texts(l@) },
            Card::OneToMany(l) => CardView { group_right: true, extra: texts(l@) },
        }
    }
}

/// What is said of a set operator.
pub open spec fn unsupported_set_operator() -> Seq<char> {
    "set operators (and/or/unless) not supported (v1)"@
}

/// The group cardinality that a modifier gives.
pub fn cardinality(modifier: &Option<BinaryModifier>) -> (r: Result<Card, String>)
    ensures
        r is Ok <==> card_of(*modifier) is Some,
        r matches Ok(c) ==> card_of(*modifier) == Some(c@),
        r matches Err(e) ==> e@ == unsupported_set_operator(),
{
    match modifier {
        None => Ok(Card::OneToOne),
        Some(b) => match &b.card {
            Cardinality::OneToOne => Ok(Card::OneToOne),
            Cardinality::ManyToOne(l) => Ok(Card::ManyToOne(copied(l))),
            Cardinality::OneToMany(l) => Ok(Card::OneToMany(copied(l))),
            Cardinality::ManyToMany => Err(
                owned("set operators (and/or/unless) not supported (v1)"),
            ),
        },
    }
}

/// The labels copied from the "one" side, and whether it is the left operand.
fn sides(card: Card) -> (r: (bool, Vec<String>))
    ensures
        r.0 == card@.group_right,
        texts(r.1@) == card@.extra,
{
    match card {
        Card::OneToOne => {
            let none: Vec<String> = Vec::new();
            assert(texts(none@) =~= Seq::<Seq<char>>::empty());
            (false, none)
        },
        Card::ManyToOne(l) => (false, l),
        Card::OneToMany(l) => (true, l),
    }
}

/// Whether a comparison gives one or zero instead of filtering.
pub open spec fn bool_of(m: Option<BinaryModifier>) -> bool {
    match m {
        Some(b) => b.return_bool,
        None => false,
    }
}

/// Whether a comparison gives one or zero instead of filtering.
pub fn return_bool(modifier: &Option<BinaryModifier>) -> (r: bool)
    ensures
        r == bool_of(*modifier),
{
    match modifier {
        Some(b) => b.return_bool,
        None => false,
    }
}

/// The labels of a matched pair: those of the "many" side that take part, and the
/// extra labels that the "one" side has.
pub open spec fn pair_labels(
    kind: KindView,
    extra: Seq<Seq<char>>,
    many: LabelMap,
    one: LabelMap,
) -> LabelMap {
    Map::new(
        |k: Seq<char>|
            kept_labels(kind, many).dom().contains(k) || (among(extra, k) && one.dom().contains(k)),
        |k: Seq<char>|
            if among(extra, k) && one.dom().contains(k) {
                one[k]
            } else {
                many[k]
            },
    )
}

fn labels_of_pair(kind: &MatchKind, extra: &Vec<String>, many: &Labels, one: &Labels) -> (r: Labels)
    ensures
        r@ == pair_labels(kind@, texts(extra@), many@, one@),
{
    let mut r = kind.result_labels(many);
    let ghost all = texts(extra@);
    let mut i: usize = 0;
    proof {
        assert(r@ =~= pair_labels(kind@, all.take(0), many@, one@));
    }
    while i < extra.len()
        invariant
            all == texts(extra@),
            i <= extra@.len(),
            r@ == pair_labels(kind@, all.take(i as int), many@, one@),
        decreases extra.len() - i,
    {
        let e = extra[i].as_str();
        let ghost before = r@;
        if let Some(v) = one.get(e) {
            r = r.with(owned(e), owned(v.as_str()));
        }
        proof {
            let seen = all.take(i as int);
            let next = all.take(i + 1);
            assert(next[i as int] == e@);
            assert forall|k: Seq<char>| among(next, k) <==> among(seen, k) || k == e@ by {
                if among(seen, k) {
                    let j = choose|j: int| 0 <= j < seen.len() && #[trigger] seen[j] == k;
                    assert(next[j] == k);
                }
                if among(next, k) && k != e@ {
                    let j = choose|j: int| 0 <= j < next.len() && #[trigger] next[j] == k;
                    assert(seen[j] == k);
                }
            }
            assert(r@ =~= pair_labels(kind@, next, many@, one@));
        }
        i = i + 1;
    }
    assert(all.take(extra@.len() as int) =~= all);
    r
}

/// The points that have a result, with it.
pub open spec fn with_results<V>(points: Seq<Point<V>>, results: Seq<Option<V>>) -> Seq<Point<V>>
    decreases points.len(),
{
    if points.len() == 0 {
        Seq::empty()
    } else {
        let rest = with_results(points.drop_last(), results.drop_last());
        match results.last() {
            Some(x) => rest.push((points.last().0, x)),
            None => rest,
        }
    }
}

/// Whether each result is what the operator gives for the scalar and the point.
pub open spec fn scalar_results<V: Number>(
    op: BinaryOp,
    scalar: V,
    scalar_left: bool,
    rb: bool,
    points: Seq<Point<V>>,
    results: Seq<Option<V>>,
) -> bool {
    results.len() == points.len() && forall|j: int|
        0 <= j < points.len() ==> scalar_applied(
            op,
            scalar,
            scalar_left,
            rb,
            points[j].1,
            #[trigger] results[j],
        )
}

/// Whether `res` is what the operator gives for the scalar and the value.
pub open spec fn scalar_applied<V: Number>(
    op: BinaryOp,
    scalar: V,
    scalar_left: bool,
    rb: bool,
    v: V,
    res: Option<V>,
) -> bool {
    if scalar_left {
        applied(op, scalar, v, rb, v, res)
    } else {
        applied(op, v, scalar, rb, v, res)
    }
}

/// Whether `out` is a series combined with a scalar: without its metric name, and
/// with the points for which the operator gives a value.
pub open spec fn scalar_series<V: Number>(
    op: BinaryOp,
    scalar: V,
    scalar_left: bool,
    rb: bool,
    s: SeriesView<V>,
    out: SeriesView<V>,
) -> bool {
    &&& out.labels == s.labels.remove("__name__"@)
    &&& scalar_points_are(op, scalar, scalar_left, rb, s.points, out.points)
}

/// Whether `out` holds the points for which the operator gives a value, with it.
pub open spec fn scalar_points_are<V: Number>(
    op: BinaryOp,
    scalar: V,
    scalar_left: bool,
    rb: bool,
    points: Seq<Point<V>>,
    out: Seq<Point<V>>,
) -> bool {
    exists|results: Seq<Option<V>>| #[trigger]
        scalar_results(op, scalar, scalar_left, rb, points, results) && out == with_results(
            points,
            results,
        )
}

/// Whether `out` is a vector combined with a scalar, series by series.
pub open spec fn scalar_vector<V: Number>(
    op: BinaryOp,
    scalar: V,
    scalar_left: bool,
    rb: bool,
    s: Seq<SeriesView<V>>,
    out: Map<Seq<char>, SeriesView<V>>,
) -> bool {
    exists|parts: Seq<SeriesView<V>>| #[trigger]
        scalar_parts(op, scalar, scalar_left, rb, s, parts) && out == gathered(parts)
}

/// Whether each part is its series combined with the scalar.
pub open spec fn scalar_parts<V: Number>(
    op: BinaryOp,
    scalar: V,
    scalar_left: bool,
    rb: bool,
    s: Seq<SeriesView<V>>,
    parts: Seq<SeriesView<V>>,
) -> bool {
    parts.len() == s.len() && forall|i: int|
        0 <= i < s.len() ==> scalar_series(op, scalar, scalar_left, rb, s[i], #[trigger] parts[i])
}

/// The points of a series combined with a scalar.
fn scalar_points<V: Number>(
    op: BinaryOp,
    scalar: V,
    scalar_left: bool,
    rb: bool,
    points: &Vec<Point<V>>,
) -> (out: Vec<Point<V>>)
    ensures
        scalar_points_are(op, scalar, scalar_left, rb, points@, out@),
{
    let mut out: Vec<Point<V>> = Vec::new();
    let ghost mut results: Seq<Option<V>> = Seq::empty();
    let mut i: usize = 0;
    while i < points.len()
        invariant
            i <= points@.len(),
            scalar_results(op, scalar, scalar_left, rb, points@.take(i as int), results),
            out@ == with_results(points@.take(i as int), results),
        decreases points.len() - i,
    {
        let (t, v) = points[i];
        let res = if scalar_left {
            apply_binop(op, scalar, v, rb, v)
        } else {
            apply_binop(op, v, scalar, rb, v)
        };
        let ghost seen = points@.take(i as int);
        let ghost next = points@.take(i + 1);
        let ghost old_results = results;
        proof {
            results = results.push(res);
            assert(next.drop_last() =~= seen);
            assert(results.drop_last() =~= old_results);
            assert forall|j: int| 0 <= j < next.len() implies scalar_applied(
                op,
                scalar,
                scalar_left,
                rb,
                next[j].1,
                #[trigger] results[j],
            ) by {
                if j < i {
                    assert(results[j] == old_results[j]);
                    assert(next[j] == seen[j]);
                }
            }
        }
        if let Some(x) = res {
            out.push((t, x));
        }
        i = i + 1;
    }
    assert(points@.take(points@.len() as int) =~= points@);
    out
}

/// `scalar ∘ vector` / `vector ∘ scalar` over a range. Result keeps the vector's
/// labels minus `__name__`.
pub fn scalar_vector_range<V: Number>(
    op: BinaryOp,
    scalar: V,
    scalar_left: bool,
    vec: RangeSeries<V>,
    rb: bool,
) -> (r: RangeSeries<V>)
    ensures
        scalar_vector(op, scalar, scalar_left, rb, series_list(vec.listing()), series_view(r@)),
{
    let n: usize = vec.len();
    let ghost s = series_list(vec.listing());
    let mut out: RangeSeries<V> = TextMap::new();
    let ghost mut parts: Seq<SeriesView<V>> = Seq::empty();
    proof {
        assert(series_view(out@) =~= gathered(parts));
    }
    let mut i: usize = 0;
    while i < n
        invariant
            n == vec.listing().len(),
            s == series_list(vec.listing()),
            i <= n,
            scalar_parts(op, scalar, scalar_left, rb, s.take(i as int), parts),
            series_view(out@) == gathered(parts),
        decreases n - i,
    {
        let (_, item) = vec.at(i);
        let labels = drop_name(item.labels.copy());
        let points = scalar_points(op, scalar, scalar_left, rb, &item.points);
        let part = Series { labels, points };
        let ghost old_parts = parts;
        proof {
            let seen = s.take(i as int);
            let next = s.take(i + 1);
            assert(next[i as int] == item@);
            parts = parts.push(part@);
            assert(scalar_series(op, scalar, scalar_left, rb, item@, part@));
            assert forall|j: int| 0 <= j < next.len() implies scalar_series(
                op,
                scalar,
                scalar_left,
                rb,
                next[j],
                #[trigger] parts[j],
            ) by {
                if j < i {
                    assert(parts[j] == old_parts[j]);
                    assert(next[j] == seen[j]);
                }
            }
            assert(parts.drop_last() =~= old_parts);
        }
        if part.points.len() > 0 {
            out = put(out, part);
        }
        i = i + 1;
    }
    assert(s.take(n as int) =~= s);
    out
}

/// The place of the first series of the "one" side that matches `labels`, from `i`
/// on; the length where there is none.
pub open spec fn partner_from(kind: KindView, labels: LabelMap, one: Seq<LabelMap>, i: int) -> int
    decreases one.len() - i,
{
    if 0 <= i < one.len() {
        if kept_labels(kind, one[i]) == kept_labels(kind, labels) {
            i
        } else {
            partner_from(kind, labels, one, i + 1)
        }
    } else {
        one.len() as int
    }
}

/// The first series of the "one" side that matches `labels` comes before every
/// other one that does.
pub proof fn first_partner_wins(kind: KindView, labels: LabelMap, one: Seq<LabelMap>, i: int, j: int)
    requires
        0 <= i <= j < one.len(),
        kept_labels(kind, one[j]) == kept_labels(kind, labels),
    ensures
        i <= partner_from(kind, labels, one, i) <= j,
        kept_labels(kind, one[partner_from(kind, labels, one, i)]) == kept_labels(kind, labels),
    decreases j - i,
{
    if kept_labels(kind, one[i]) != kept_labels(kind, labels) {
        first_partner_wins(kind, labels, one, i + 1, j);
    }
}

/// The labels of the series of a list.
pub open spec fn labels_of<V>(s: Seq<SeriesView<V>>) -> Seq<LabelMap> {
    Seq::new(s.len(), |i: int| s[i].labels)
}

/// The value of the last point at a time.
pub open spec fn value_at<V>(points: Seq<Point<V>>, t: i64) -> Option<V>
    decreases points.len(),
{
    if points.len() == 0 {
        None
    } else if points.last().0 == t {
        Some(points.last().1)
    } else {
        value_at(points.drop_last(), t)
    }
}

/// Whether `res` is what the operator gives for a value of the "many" side and the
/// value of the "one" side at the same time; nothing where there is none.
pub open spec fn pair_applied<V: Number>(
    op: BinaryOp,
    group_right: bool,
    rb: bool,
    many: V,
    one: Option<V>,
    res: Option<V>,
) -> bool {
    match one {
        None => res is None,
        Some(o) => if group_right {
            applied(op, o, many, rb, o, res)
        } else {
            applied(op, many, o, rb, many, res)
        },
    }
}

/// Whether each result is what the operator gives at the time of its point.
pub open spec fn pair_results<V: Number>(
    op: BinaryOp,
    group_right: bool,
    rb: bool,
    many: Seq<Point<V>>,
    one: Seq<Point<V>>,
    results: Seq<Option<V>>,
) -> bool {
    results.len() == many.len() && forall|j: int|
        0 <= j < many.len() ==> pair_applied(
            op,
            group_right,
            rb,
            many[j].1,
            value_at(one, many[j].0),
            #[trigger] results[j],
        )
}

/// Whether `out` is what a series of the "many" side gives: combined with the first
/// series of the "one" side that matches it, at the times that both have; a series
/// without points where none matches.
pub open spec fn matched_series<V: Number>(
    op: BinaryOp,
    kind: KindView,
    card: CardView,
    rb: bool,
    many: SeriesView<V>,
    one: Seq<SeriesView<V>>,
    out: SeriesView<V>,
) -> bool {
    let p = partner_from(kind, many.labels, labels_of(one), 0);
    if p >= one.len() {
        out.points.len() == 0
    } else {
        &&& out.labels == pair_labels(kind, card.extra, many.labels, one[p].labels)
        &&& pair_points_are(op, card.group_right, rb, many.points, one[p].points, out.points)
    }
}

/// Whether `out` holds the points for which the operator gives a value, with it.
pub open spec fn pair_points_are<V: Number>(
    op: BinaryOp,
    group_right: bool,
    rb: bool,
    many: Seq<Point<V>>,
    one: Seq<Point<V>>,
    out: Seq<Point<V>>,
) -> bool {
    exists|results: Seq<Option<V>>| #[trigger]
        pair_results(op, group_right, rb, many, one, results) && out == with_results(many, results)
}

/// Whether each part is what its series of the "many" side gives.
pub open spec fn matched_parts<V: Number>(
    op: BinaryOp,
    kind: KindView,
    card: CardView,
    rb: bool,
    many: Seq<SeriesView<V>>,
    one: Seq<SeriesView<V>>,
    parts: Seq<SeriesView<V>>,
) -> bool {
    parts.len() == many.len() && forall|i: int|
        0 <= i < many.len() ==> matched_series(op, kind, card, rb, many[i], one, #[trigger] parts[i])
}

/// Whether `out` is what two vectors give: what each series of the "many" side gives,
/// under its labels, a later series in place of an earlier one with the same labels.
pub open spec fn vectors_combined<V: Number>(
    op: BinaryOp,
    kind: KindView,
    card: CardView,
    rb: bool,
    lhs: Seq<SeriesView<V>>,
    rhs: Seq<SeriesView<V>>,
    out: Map<Seq<char>, SeriesView<V>>,
) -> bool {
    if card.group_right {
        matched(op, kind, card, rb, rhs, lhs, out)
    } else {
        matched(op, kind, card, rb, lhs, rhs, out)
    }
}

/// Whether `out` is what the series of the "many" side give.
pub open spec fn matched<V: Number>(
    op: BinaryOp,
    kind: KindView,
    card: CardView,
    rb: bool,
    many: Seq<SeriesView<V>>,
    one: Seq<SeriesView<V>>,
    out: Map<Seq<char>, SeriesView<V>>,
) -> bool {
    exists|parts: Seq<SeriesView<V>>| #[trigger]
        matched_parts(op, kind, card, rb, many, one, parts) && out == gathered(parts)
}

/// The values of points by their times.
fn values_by_time<V: Copy>(points: &Vec<Point<V>>) -> (m: HashMap<i64, V>)
    ensures
        forall|t: i64| #[trigger]
            m@.dom().contains(t) <==> value_at(points@, t) is Some,
        forall|t: i64| m@.dom().contains(t) ==> value_at(points@, t) == Some(#[trigger] m@[t]),
{
    broadcast use vstd::std_specs::hash::group_hash_axioms;

    let mut m: HashMap<i64, V> = HashMap::new();
    let mut i: usize = 0;
    while i < points.len()
        invariant
            i <= points@.len(),
            forall|t: i64| #[trigger]
                m@.dom().contains(t) <==> value_at(points@.take(i as int), t) is Some,
            forall|t: i64|
                m@.dom().contains(t) ==> value_at(points@.take(i as int), t) == Some(
                    #[trigger] m@[t],
                ),
        decreases points.len() - i,
    {
        let (t, v) = points[i];
        m.insert(t, v);
        proof {
            assert(points@.take(i + 1).drop_last() =~= points@.take(i as int));
            assert(points@.take(i + 1).last() == (t, v));
        }
        i = i + 1;
    }
    assert(points@.take(points@.len() as int) =~= points@);
    m
}

/// The points that two matched series give.
fn pair_points<V: Number>(
    op: BinaryOp,
    group_right: bool,
    rb: bool,
    many: &Vec<Point<V>>,
    one: &Vec<Point<V>>,
) -> (out: Vec<Point<V>>)
    ensures
        pair_points_are(op, group_right, rb, many@, one@, out@),
{
    broadcast use vstd::std_specs::hash::group_hash_axioms;

    let at = values_by_time(one);
    let mut out: Vec<Point<V>> = Vec::new();
    let ghost mut results: Seq<Option<V>> = Seq::empty();
    let mut i: usize = 0;
    while i < many.len()
        invariant
            i <= many@.len(),
            forall|t: i64| #[trigger] at@.dom().contains(t) <==> value_at(one@, t) is Some,
            forall|t: i64| at@.dom().contains(t) ==> value_at(one@, t) == Some(#[trigger] at@[t]),
            pair_results(op, group_right, rb, many@.take(i as int), one@, results),
            out@ == with_results(many@.take(i as int), results),
        decreases many.len() - i,
    {
        let (t, mv) = many[i];
        let res = match at.get(&t) {
            Some(ov) => if group_right {
                apply_binop(op, *ov, mv, rb, *ov)
            } else {
                apply_binop(op, mv, *ov, rb, mv)
            },
            None => None,
        };
        let ghost seen = many@.take(i as int);
        let ghost next = many@.take(i + 1);
        let ghost old_results = results;
        proof {
            results = results.push(res);
            assert(next.drop_last() =~= seen);
            assert(results.drop_last() =~= old_results);
            assert(pair_applied(op, group_right, rb, mv, value_at(one@, t), res));
            assert forall|j: int| 0 <= j < next.len() implies pair_applied(
                op,
                group_right,
                rb,
                next[j].1,
                value_at(one@, next[j].0),
                #[trigger] results[j],
            ) by {
                if j < i {
                    assert(results[j] == old_results[j]);
                    assert(next[j] == seen[j]);
                }
            }
        }
        if let Some(x) = res {
            out.push((t, x));
        }
        i = i + 1;
    }
    assert(many@.take(many@.len() as int) =~= many@);
    out
}

/// The place of the first series of the "one" side that matches.
fn find_partner<V>(kind: &MatchKind, labels: &Labels, one: &RangeSeries<V>) -> (p: usize)
    ensures
        p == partner_from(kind@, labels@, labels_of(series_list(one.listing())), 0),
        p <= one.listing().len(),
{
    let n: usize = one.len();
    let ghost ls = labels_of(series_list(one.listing()));
    let mut i: usize = 0;
    while i < n
        invariant
            n == one.listing().len(),
            ls == labels_of(series_list(one.listing())),
            i <= n,
            partner_from(kind@, labels@, ls, 0) == partner_from(kind@, labels@, ls, i as int),
        decreases n - i,
    {
        let (_, item) = one.at(i);
        assert(ls[i as int] == item.labels@);
        if kind.matches(&item.labels, labels) {
            return i;
        }
        i = i + 1;
    }
    n
}

/// `vector ∘ vector` over a range: match series by their labels, then combine
/// points that share a timestamp.
pub fn vector_vector_range<V: Number>(
    op: BinaryOp,
    lhs: RangeSeries<V>,
    rhs: RangeSeries<V>,
    modifier: &Option<BinaryModifier>,
    rb: bool,
) -> (r: Result<RangeSeries<V>, String>)
    ensures
        r is Ok <==> card_of(*modifier) is Some,
        r matches Ok(out) ==> vectors_combined(
            op,
            kind_of(*modifier),
            card_of(*modifier)->0,
            rb,
            series_list(lhs.listing()),
            series_list(rhs.listing()),
            series_view(out@),
        ),
        r matches Err(e) ==> e@ == unsupported_set_operator(),
{
    let kind = MatchKind::from(modifier);
    let card = match cardinality(modifier) {
        Ok(c) => c,
        Err(e) => return Err(e),
    };
    let ghost c = card@;
    let (group_right, extra) = sides(card);
    let (many, one) = if group_right {
        (rhs, lhs)
    } else {
        (lhs, rhs)
    };
    let n: usize = many.len();
    let ghost ms = series_list(many.listing());
    let ghost os = series_list(one.listing());
    let mut out: RangeSeries<V> = TextMap::new();
    let ghost mut parts: Seq<SeriesView<V>> = Seq::empty();
    proof {
        assert(series_view(out@) =~= gathered(parts));
    }
    let mut i: usize = 0;
    while i < n
        invariant
            n == many.listing().len(),
            ms == series_list(many.listing()),
            os == series_list(one.listing()),
            group_right == c.group_right,
            texts(extra@) == c.extra,
            i <= n,
            matched_parts(op, kind@, c, rb, ms.take(i as int), os, parts),
            series_view(out@) == gathered(parts),
        decreases n - i,
    {
        let (_, m) = many.at(i);
        let p = find_partner(&kind, &m.labels, &one);
        let part = if p < one.len() {
            let (_, o) = one.at(p);
            assert(os[p as int] == o@);
            Series {
                labels: labels_of_pair(&kind, &extra, &m.labels, &o.labels),
                points: pair_points(op, group_right, rb, &m.points, &o.points),
            }
        } else {
            Series { labels: Labels::new(), points: Vec::new() }
        };
        let ghost old_parts = parts;
        proof {
            let seen = ms.take(i as int);
            let next = ms.take(i + 1);
            assert(next[i as int] == m@);
            parts = parts.push(part@);
            assert(matched_series(op, kind@, c, rb, m@, os, part@));
            assert forall|j: int| 0 <= j < next.len() implies matched_series(
                op,
                kind@,
                c,
                rb,
                next[j],
                os,
                #[trigger] parts[j],
            ) by {
                if j < i {
                    assert(parts[j] == old_parts[j]);
                    assert(next[j] == seen[j]);
                }
            }
            assert(parts.drop_last() =~= old_parts);
        }
        if part.points.len() > 0 {
            out = put(out, part);
        }
        i = i + 1;
    }
    assert(ms.take(n as int) =~= ms);
    assert(matched(op, kind@, c, rb, ms, os, series_view(out@)));
    Ok(out)
}

/// The parts that are there, in their order.
pub open spec fn present<T>(s: Seq<Option<T>>) -> Seq<T>
    decreases s.len(),
{
    if s.len() == 0 {
        Seq::empty()
    } else {
        match s.last() {
            Some(x) => present(s.drop_last()).push(x),
            None => present(s.drop_last()),
        }
    }
}

/// Whether `part` is what a sample combined with a scalar gives: the sample without
/// its metric name, with the value that the operator gives, if it gives one.
pub open spec fn scalar_sample<V: Number>(
    op: BinaryOp,
    scalar: V,
    scalar_left: bool,
    rb: bool,
    s: (LabelMap, V),
    part: Option<(LabelMap, V)>,
) -> bool {
    match part {
        Some(p) => p.0 == s.0.remove("__name__"@) && scalar_applied(
            op,
            scalar,
            scalar_left,
            rb,
            s.1,
            Some(p.1),
        ),
        None => scalar_applied(op, scalar, scalar_left, rb, s.1, None),
    }
}

/// Whether each part is what its sample gives.
pub open spec fn scalar_samples<V: Number>(
    op: BinaryOp,
    scalar: V,
    scalar_left: bool,
    rb: bool,
    s: Seq<(LabelMap, V)>,
    parts: Seq<Option<(LabelMap, V)>>,
) -> bool {
    parts.len() == s.len() && forall|i: int|
        0 <= i < s.len() ==> scalar_sample(op, scalar, scalar_left, rb, s[i], #[trigger] parts[i])
}

/// Whether `out` is an instant vector combined with a scalar.
pub open spec fn scalar_instant<V: Number>(
    op: BinaryOp,
    scalar: V,
    scalar_left: bool,
    rb: bool,
    s: Seq<(LabelMap, V)>,
    out: Seq<(LabelMap, V)>,
) -> bool {
    exists|parts: Seq<Option<(LabelMap, V)>>| #[trigger]
        scalar_samples(op, scalar, scalar_left, rb, s, parts) && out == present(parts)
}

/// `scalar ∘ vector` / `vector ∘ scalar` at an instant.
pub fn scalar_vector_instant<V: Number>(
    op: BinaryOp,
    scalar: V,
    scalar_left: bool,
    vec: Vec<Sample<V>>,
    rb: bool,
) -> (out: Vec<Sample<V>>)
    ensures
        scalar_instant(op, scalar, scalar_left, rb, samples_view(vec@), samples_view(out@)),
{
    let ghost s = samples_view(vec@);
    let mut out: Vec<Sample<V>> = Vec::new();
    let ghost mut parts: Seq<Option<(LabelMap, V)>> = Seq::empty();
    proof {
        assert(samples_view(out@) =~= present(parts));
    }
    let mut i: usize = 0;
    while i < vec.len()
        invariant
            s == samples_view(vec@),
            i <= vec@.len(),
            scalar_samples(op, scalar, scalar_left, rb, s.take(i as int), parts),
            samples_view(out@) == present(parts),
        decreases vec.len() - i,
    {
        let v = vec[i].1;
        let res = if scalar_left {
            apply_binop(op, scalar, v, rb, v)
        } else {
            apply_binop(op, v, scalar, rb, v)
        };
        let ghost old_parts = parts;
        let ghost before = out@;
        let ghost mut part: Option<(LabelMap, V)> = None;
        if let Some(x) = res {
            let labels = drop_name(vec[i].0.copy());
            out.push((labels, x));
            proof {
                samples_push(before, out@.last());
                part = Some((labels@, x));
            }
        }
        proof {
            let seen = s.take(i as int);
            let next = s.take(i + 1);
            parts = parts.push(part);
            assert(next[i as int] == (vec@[i as int].0@, v));
            assert(parts.drop_last() =~= old_parts);
            assert forall|j: int| 0 <= j < next.len() implies scalar_sample(
                op,
                scalar,
                scalar_left,
                rb,
                next[j],
                #[trigger] parts[j],
            ) by {
                if j < i {
                    assert(parts[j] == old_parts[j]);
                    assert(next[j] == seen[j]);
                }
            }
        }
        i = i + 1;
    }
    assert(s.take(s.len() as int) =~= s);
    out
}

/// The labels of the samples of a list.
pub open spec fn sample_labels<V>(s: Seq<(LabelMap, V)>) -> Seq<LabelMap> {
    Seq::new(s.len(), |i: int| s[i].0)
}

/// Whether `part` is what a sample of the "many" side gives: combined with the first
/// sample of the "one" side that matches it.
pub open spec fn matched_sample<V: Number>(
    op: BinaryOp,
    kind: KindView,
    card: CardView,
    rb: bool,
    many: (LabelMap, V),
    one: Seq<(LabelMap, V)>,
    part: Option<(LabelMap, V)>,
) -> bool {
    let p = partner_from(kind, many.0, sample_labels(one), 0);
    if p >= one.len() {
        part is None
    } else {
        match part {
            Some(x) => x.0 == pair_labels(kind, card.extra, many.0, one[p].0) && pair_applied(
                op,
                card.group_right,
                rb,
                many.1,
                Some(one[p].1),
                Some(x.1),
            ),
            None => pair_applied(op, card.group_right, rb, many.1, Some(one[p].1), None),
        }
    }
}

/// Whether each part is what its sample of the "many" side gives.
pub open spec fn matched_samples<V: Number>(
    op: BinaryOp,
    kind: KindView,
    card: CardView,
    rb: bool,
    many: Seq<(LabelMap, V)>,
    one: Seq<(LabelMap, V)>,
    parts: Seq<Option<(LabelMap, V)>>,
) -> bool {
    parts.len() == many.len() && forall|i: int|
        0 <= i < many.len() ==> matched_sample(op, kind, card, rb, many[i], one, #[trigger] parts[i])
}

/// Whether `out` is what the samples of the "many" side give.
pub open spec fn matched_instant<V: Number>(
    op: BinaryOp,
    kind: KindView,
    card: CardView,
    rb: bool,
    many: Seq<(LabelMap, V)>,
    one: Seq<(LabelMap, V)>,
    out: Seq<(LabelMap, V)>,
) -> bool {
    exists|parts: Seq<Option<(LabelMap, V)>>| #[trigger]
        matched_samples(op, kind, card, rb, many, one, parts) && out == present(parts)
}

/// Whether `out` is what two instant vectors give.
pub open spec fn instants_combined<V: Number>(
    op: BinaryOp,
    kind: KindView,
    card: CardView,
    rb: bool,
    lhs: Seq<(LabelMap, V)>,
    rhs: Seq<(LabelMap, V)>,
    out: Seq<(LabelMap, V)>,
) -> bool {
    if card.group_right {
        matched_instant(op, kind, card, rb, rhs, lhs, out)
    } else {
        matched_instant(op, kind, card, rb, lhs, rhs, out)
    }
}

/// The place of the first sample of the "one" side that matches.
fn find_sample<V>(kind: &MatchKind, labels: &Labels, one: &Vec<Sample<V>>) -> (p: usize)
    ensures
        p == partner_from(kind@, labels@, sample_labels(samples_view(one@)), 0),
        p <= one@.len(),
{
    let ghost ls = sample_labels(samples_view(one@));
    let mut i: usize = 0;
    while i < one.len()
        invariant
            ls == sample_labels(samples_view(one@)),
            i <= one@.len(),
            partner_from(kind@, labels@, ls, 0) == partner_from(kind@, labels@, ls, i as int),
        decreases one.len() - i,
    {
        assert(ls[i as int] == one@[i as int].0@);
        if kind.matches(&one[i].0, labels) {
            return i;
        }
        i = i + 1;
    }
    one.len()
}

/// `vector ∘ vector` at an instant: match samples by their labels.
pub fn vector_vector_instant<V: Number>(
    op: BinaryOp,
    lhs: Vec<Sample<V>>,
    rhs: Vec<Sample<V>>,
    modifier: &Option<BinaryModifier>,
    rb: bool,
) -> (r: Result<Vec<Sample<V>>, String>)
    ensures
        r is Ok <==> card_of(*modifier) is Some,
        r matches Ok(out) ==> instants_combined(
            op,
            kind_of(*modifier),
            card_of(*modifier)->0,
            rb,
            samples_view(lhs@),
            samples_view(rhs@),
            samples_view(out@),
        ),
        r matches Err(e) ==> e@ == unsupported_set_operator(),
{
    let kind = MatchKind::from(modifier);
    let card = match cardinality(modifier) {
        Ok(c) => c,
        Err(e) => return Err(e),
    };
    let ghost c = card@;
    let (group_right, extra) = sides(card);
    let (many, one) = if group_right {
        (rhs, lhs)
    } else {
        (lhs, rhs)
    };
    let ghost ms = samples_view(many@);
    let ghost os = samples_view(one@);
    let mut out: Vec<Sample<V>> = Vec::new();
    let ghost mut parts: Seq<Option<(LabelMap, V)>> = Seq::empty();
    proof {
        assert(samples_view(out@) =~= present(parts));
    }
    let mut i: usize = 0;
    while i < many.len()
        invariant
            ms == samples_view(many@),
            os == samples_view(one@),
            group_right == c.group_right,
            texts(extra@) == c.extra,
            i <= many@.len(),
            matched_samples(op, kind@, c, rb, ms.take(i as int), os, parts),
            samples_view(out@) == present(parts),
        decreases many.len() - i,
    {
        let mv = many[i].1;
        let p = find_sample(&kind, &many[i].0, &one);
        let ghost old_parts = parts;
        let ghost before = out@;
        let ghost mut part: Option<(LabelMap, V)> = None;
        if p < one.len() {
            let ov = one[p].1;
            assert(os[p as int] == (one@[p as int].0@, ov));
            let res = if group_right {
                apply_binop(op, ov, mv, rb, ov)
            } else {
                apply_binop(op, mv, ov, rb, mv)
            };
            assert(pair_applied(op, group_right, rb, mv, Some(ov), res));
            if let Some(x) = res {
                let labels = labels_of_pair(&kind, &extra, &many[i].0, &one[p].0);
                out.push((labels, x));
                proof {
                    samples_push(before, out@.last());
                    part = Some((labels@, x));
                }
            }
        }
        proof {
            let seen = ms.take(i as int);
            let next = ms.take(i + 1);
            parts = parts.push(part);
            assert(next[i as int] == (many@[i as int].0@, mv));
            assert(parts.drop_last() =~= old_parts);
            assert(matched_sample(op, kind@, c, rb, next[i as int], os, part));
            assert forall|j: int| 0 <= j < next.len() implies matched_sample(
                op,
                kind@,
                c,
                rb,
                next[j],
                os,
                #[trigger] parts[j],
            ) by {
                if j < i {
                    assert(parts[j] == old_parts[j]);
                    assert(next[j] == seen[j]);
                }
            }
        }
        i = i + 1;
    }
    assert(ms.take(ms.len() as int) =~= ms);
    assert(matched_instant(op, kind@, c, rb, ms, os, samples_view(out@)));
    Ok(out)
}

/// Whether `out` is what a binary operator gives for two range values.
pub open spec fn ranges_combined<V: Number>(
    op: BinaryOp,
    lhs: RangeVal<V>,
    rhs: RangeVal<V>,
    modifier: Option<BinaryModifier>,
    out: RangeVal<V>,
) -> bool {
    let rb = bool_of(modifier);
    match (lhs, rhs) {
        (RangeVal::Scalar(a), RangeVal::Scalar(b)) => match out {
            RangeVal::Scalar(x) => scalars_combined(op, a, b, x),
            RangeVal::Vector(_) => false,
        },
        (RangeVal::Scalar(a), RangeVal::Vector(v)) => match out {
            RangeVal::Scalar(_) => false,
            RangeVal::Vector(o) => scalar_vector(
                op,
                a,
                true,
                rb,
                series_list(v.listing()),
                series_view(o@),
            ),
        },
        (RangeVal::Vector(v), RangeVal::Scalar(b)) => match out {
            RangeVal::Scalar(_) => false,
            RangeVal::Vector(o) => scalar_vector(
                op,
                b,
                false,
                rb,
                series_list(v.listing()),
                series_view(o@),
            ),
        },
        (RangeVal::Vector(l), RangeVal::Vector(r)) => match out {
            RangeVal::Scalar(_) => false,
            RangeVal::Vector(o) => card_of(modifier) is Some && vectors_combined(
                op,
                kind_of(modifier),
                card_of(modifier)->0,
                rb,
                series_list(l.listing()),
                series_list(r.listing()),
                series_view(o@),
            ),
        },
    }
}

/// A binary operator between two range values. A set operator between two vectors is
/// refused.
pub fn combine_range<V: Number>(
    op: BinaryOp,
    lhs: RangeVal<V>,
    rhs: RangeVal<V>,
    modifier: &Option<BinaryModifier>,
) -> (r: Result<RangeVal<V>, String>)
    ensures
        r is Err <==> lhs is Vector && rhs is Vector && card_of(*modifier) is None,
        r matches Ok(out) ==> ranges_combined(op, lhs, rhs, *modifier, out),
        r matches Ok(out) ==> is_ordered(out),
        r matches Err(e) ==> e@ == unsupported_set_operator(),
{
    let rb = return_bool(modifier);
    match (lhs, rhs) {
        (RangeVal::Scalar(a), RangeVal::Scalar(b)) => Ok(
            RangeVal::Scalar(scalar_op_scalar(op, a, b)),
        ),
        (RangeVal::Scalar(a), RangeVal::Vector(v)) => Ok(
            vector(scalar_vector_range(op, a, true, v, rb)),
        ),
        (RangeVal::Vector(v), RangeVal::Scalar(b)) => Ok(
            vector(scalar_vector_range(op, b, false, v, rb)),
        ),
        (RangeVal::Vector(l), RangeVal::Vector(r)) => match vector_vector_range(
            op,
            l,
            r,
            modifier,
            rb,
        ) {
            Ok(out) => Ok(vector(out)),
            Err(e) => Err(e),
        },
    }
}

/// Whether `out` is what a binary operator gives for two instant values.
pub open spec fn instant_values_combined<V: Number>(
    op: BinaryOp,
    lhs: InstantVal<V>,
    rhs: InstantVal<V>,
    modifier: Option<BinaryModifier>,
    out: InstantVal<V>,
) -> bool {
    let rb = bool_of(modifier);
    match (lhs, rhs) {
        (InstantVal::Scalar(a), InstantVal::Scalar(b)) => match out {
            InstantVal::Scalar(x) => scalars_combined(op, a, b, x),
            InstantVal::Vector(_) => false,
        },
        (InstantVal::Scalar(a), InstantVal::Vector(v)) => match out {
            InstantVal::Scalar(_) => false,
            InstantVal::Vector(o) => scalar_instant(
                op,
                a,
                true,
                rb,
                samples_view(v@),
                samples_view(o@),
            ),
        },
        (InstantVal::Vector(v), InstantVal::Scalar(b)) => match out {
            InstantVal::Scalar(_) => false,
            InstantVal::Vector(o) => scalar_instant(
                op,
                b,
                false,
                rb,
                samples_view(v@),
                samples_view(o@),
            ),
        },
        (InstantVal::Vector(l), InstantVal::Vector(r)) => match out {
            InstantVal::Scalar(_) => false,
            InstantVal::Vector(o) => card_of(modifier) is Some && instants_combined(
                op,
                kind_of(modifier),
                card_of(modifier)->0,
                rb,
                samples_view(l@),
                samples_view(r@),
                samples_view(o@),
            ),
        },
    }
}

/// A binary operator between two instant values. A set operator between two vectors
/// is refused.
pub fn combine_instant<V: Number>(
    op: BinaryOp,
    lhs: InstantVal<V>,
    rhs: InstantVal<V>,
    modifier: &Option<BinaryModifier>,
) -> (r: Result<InstantVal<V>, String>)
    ensures
        r is Err <==> lhs is Vector && rhs is Vector && card_of(*modifier) is None,
        r matches Ok(out) ==> instant_values_combined(op, lhs, rhs, *modifier, out),
        r matches Err(e) ==> e@ == unsupported_set_operator(),
{
    let rb = return_bool(modifier);
    match (lhs, rhs) {
        (InstantVal::Scalar(a), InstantVal::Scalar(b)) => Ok(
            InstantVal::Scalar(scalar_op_scalar(op, a, b)),
        ),
        (InstantVal::Scalar(a), InstantVal::Vector(v)) => Ok(
            InstantVal::Vector(scalar_vector_instant(op, a, true, v, rb)),
        ),
        (InstantVal::Vector(v), InstantVal::Scalar(b)) => Ok(
            InstantVal::Vector(scalar_vector_instant(op, b, false, v, rb)),
        ),
        (InstantVal::Vector(l), InstantVal::Vector(r)) => match vector_vector_instant(
            op,
            l,
            r,
            modifier,
            rb,
        ) {
            Ok(out) => Ok(InstantVal::Vector(out)),
            Err(e) => Err(e),
        },
    }
}

/// No series that a matched pair gives has the metric name, unless it is listed.
pub proof fn matching_drops_the_metric_name(
    ignored: Seq<Seq<char>>,
    extra: Seq<Seq<char>>,
    many: LabelMap,
    one: LabelMap,
)
    requires
        !among(extra, "__name__"@),
    ensures
        !pair_labels(KindView::Ignoring(ignored), extra, many, one).dom().contains("__name__"@),
{
}

/// Whether two label sets match does not depend on their order.
pub proof fn matching_is_symmetric(kind: KindView, a: LabelMap, b: LabelMap)
    ensures
        (partner_from(kind, a, seq![b], 0) == 0) == (partner_from(kind, b, seq![a], 0) == 0),
{
    reveal_with_fuel(partner_from, 2);
}

} // verus!

//! Series of points, and the sets of series that expressions evaluate to.
use crate::grid::Point;
use crate::labels::{rendered, Labels};
use crate::number::Number;
use crate::textmap::{ascending, TextMap};
use vstd::prelude::*;

verus! {

/// The labels of a series, as a value.
pub type LabelMap = Map<Seq<char>, Seq<char>>;

/// A series: its labels, and its points.
#[derive(Debug)]
pub struct Series<V> {
    pub labels: Labels,
    pub points: Vec<Point<V>>,
}

/// A series, as a value.
pub struct SeriesView<V> {
    pub labels: LabelMap,
    pub points: Seq<Point<V>>,
}

impl<V> View for Series<V> {
    type V = SeriesView<V>;

    open spec fn view(&self) -> SeriesView<V> {
        SeriesView { labels: self.labels@, points: self.points@ }
    }
}

/// A set of series by the texts of their labels, walked in the order of these.
pub type RangeSeries<V> = TextMap<Series<V>>;

/// A set of series, as a value.
pub open spec fn series_view<V>(m: Map<Seq<char>, Series<V>>) -> Map<Seq<char>, SeriesView<V>> {
    Map::new(|k: Seq<char>| m.dom().contains(k), |k: Seq<char>| m[k]@)
}

/// The series of a set in the order of their texts, as values.
pub open spec fn series_list<V>(s: Seq<(String, Series<V>)>) -> Seq<SeriesView<V>> {
    Seq::new(s.len(), |i: int| s[i].1@)
}

/// A set of series into which a series was put under the text of its labels.
pub open spec fn put_series<V>(
    m: Map<Seq<char>, SeriesView<V>>,
    s: SeriesView<V>,
) -> Map<Seq<char>, SeriesView<V>> {
    m.insert(rendered(s.labels), s)
}

/// Put a series into a set under the text of its labels, in place of one that has
/// the same.
pub fn put<V>(m: RangeSeries<V>, s: Series<V>) -> (r: RangeSeries<V>)
    ensures
        series_view(r@) == put_series(series_view(m@), s@),
{
    let key = s.labels.key();
    let ghost v = s@;
    let ghost before = m@;
    let r = m.with(key, s);
    assert(series_view(r@) =~= put_series(series_view(before), v));
    r
}

/// The series that have points, each put under the text of its labels, a later one
/// in place of an earlier one.
pub open spec fn gathered<V>(s: Seq<SeriesView<V>>) -> Map<Seq<char>, SeriesView<V>>
    decreases s.len(),
{
    if s.len() == 0 {
        Map::empty()
    } else if s.last().points.len() == 0 {
        gathered(s.drop_last())
    } else {
        put_series(gathered(s.drop_last()), s.last())
    }
}

/// A range expression evaluates to either a scalar (constant over the range) or a
/// vector of series.
#[derive(Debug)]
pub enum RangeVal<V> {
    Scalar(V),
    Vector(RangeSeries<V>),
}

/// Whether a range value is held as it has to be: its series in the order of their keys.
pub open spec fn is_ordered<V>(v: RangeVal<V>) -> bool {
    v matches RangeVal::Vector(m) ==> ascending(m.listing())
}

/// The range value of a set of series.
pub fn vector<V>(m: RangeSeries<V>) -> (r: RangeVal<V>)
    ensures
        r == RangeVal::Vector(m),
        is_ordered(r),
{
    let _count: usize = m.len();
    RangeVal::Vector(m)
}

/// A sample of an instant vector: labels and value.
pub type Sample<V> = (Labels, V);

/// An instant expression evaluates to a scalar or a vector of samples.
#[derive(Debug)]
pub enum InstantVal<V> {
    Scalar(V),
    Vector(Vec<Sample<V>>),
}

/// The samples of an instant vector, as values.
pub open spec fn samples_view<V>(s: Seq<Sample<V>>) -> Seq<(LabelMap, V)> {
    Seq::new(s.len(), |i: int| (s[i].0@, s[i].1))
}

/// A sample added to an instant vector.
pub proof fn samples_push<V>(s: Seq<Sample<V>>, x: Sample<V>)
    ensures
        samples_view(s.push(x)) == samples_view(s).push((x.0@, x.1)),
{
    assert(samples_view(s.push(x)) =~= samples_view(s).push((x.0@, x.1)));
}

/// Whether `x` is the scalar that an instant value folds to: a scalar is its own, a
/// vector of one sample the sample's value, and any other vector is undefined.
pub open spec fn folds_to<V: Number>(v: InstantVal<V>, x: V) -> bool {
    match v {
        InstantVal::Scalar(s) => x == s,
        InstantVal::Vector(items) => if items@.len() == 1 {
            x == items@[0].1
        } else {
            call_ensures(V::undefined, (), x)
        },
    }
}

/// Fold an instant value to a scalar, per PromQL `scalar()`: a scalar passes
/// through, a one-element vector yields its value, anything else is undefined.
pub fn instant_to_scalar<V: Number>(v: &InstantVal<V>) -> (x: V)
    ensures
        folds_to(*v, x),
{
    match v {
        InstantVal::Scalar(s) => *s,
        InstantVal::Vector(items) => if items.len() == 1 {
            items[0].1
        } else {
            V::undefined()
        },
    }
}

} // verus!

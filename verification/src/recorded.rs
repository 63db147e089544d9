//! Laws of what is kept and answered: rollups, shared executions and responses.
use crate::classify::AggKind;
use crate::labels::Labels;
use crate::number::{whole_count, Number, FRACTION, SIGN};
use crate::response::{instant_samples, PromMatrixResponse, PromResponse};
use crate::rollup::{
    aggregates_view, carried_columns, last_columns, rollup_due, rollup_plan, RollupPlan,
    RollupTier, ScalarSource,
};
use crate::series::{InstantVal, Series};
use crate::single_flight::{called, role, Flights, Role};
use crate::text::texts;
use vstd::prelude::*;

verus! {

/// Whether a column is one of the aggregates of a bucket.
pub open spec fn holds_an_aggregate(n: Seq<char>) -> bool {
    n == "value_min"@ || n == "value_max"@ || n == "value_sum"@ || n == "value_count"@
}

proof fn columns_are_filtered(columns: Seq<Seq<char>>)
    ensures
        carried_columns(columns) == columns.filter(|n: Seq<char>| !holds_an_aggregate(n)),
        last_columns(columns) == columns.filter(
            |n: Seq<char>|
                !holds_an_aggregate(n) && n != "name"@ && n != "service_name"@ && n
                    != "prom_series_key"@,
        ),
    decreases columns.len(),
{
    reveal(Seq::filter);
    if columns.len() > 0 {
        columns_are_filtered(columns.drop_last());
    }
}

/// A rollup has one row for each series and bucket. It carries all columns of its source but
/// the aggregates of an earlier rollup, in their order; those that do not tell series apart
/// have the value at the latest time. The aggregates are the least, the greatest, the sum and
/// the count of the values, which are read from the columns that are there.
pub proof fn rollups_keep_the_last_sample(columns: &Vec<String>, resolution_ns: i64, r: RollupPlan)
    requires
        call_ensures(rollup_plan, (columns, resolution_ns), r),
    ensures
        ({
            let all = texts(columns@);
            &&& texts(r.keys@) == seq!["name"@, "service_name"@, "prom_series_key"@]
            &&& r.resolution_ns == resolution_ns
            &&& texts(r.columns@) == all.filter(|n: Seq<char>| !holds_an_aggregate(n))
            &&& texts(r.last@) == all.filter(
                |n: Seq<char>|
                    !holds_an_aggregate(n) && n != "name"@ && n != "service_name"@ && n
                        != "prom_series_key"@,
            )
            &&& r.last_by@ == "time_unix_nano"@
            &&& all.contains("double_value"@) && all.contains("int_value"@) ==> r.scalar
                == ScalarSource::DoubleOrInt
            &&& all.contains("double_value"@) && !all.contains("int_value"@) ==> r.scalar
                == ScalarSource::Double
            &&& !all.contains("double_value"@) && all.contains("int_value"@) ==> r.scalar
                == ScalarSource::Int
            &&& !all.contains("double_value"@) && !all.contains("int_value"@) ==> r.scalar
                == ScalarSource::Null
            &&& r.aggregates@.len() == 4
            &&& r.aggregates@[0].0@ == "value_min"@ && r.aggregates@[0].1 == AggKind::Min
            &&& r.aggregates@[1].0@ == "value_max"@ && r.aggregates@[1].1 == AggKind::Max
            &&& r.aggregates@[2].0@ == "value_sum"@ && r.aggregates@[2].1 == AggKind::Sum
            &&& r.aggregates@[3].0@ == "value_count"@ && r.aggregates@[3].1 == AggKind::Count
        }),
{
    columns_are_filtered(texts(columns@));
    let v = aggregates_view(r.aggregates@);
    assert(v.len() == r.aggregates@.len());
    assert(v[0] == (r.aggregates@[0].0@, r.aggregates@[0].1));
    assert(v[1] == (r.aggregates@[1].0@, r.aggregates@[1].1));
    assert(v[2] == (r.aggregates@[2].0@, r.aggregates@[2].1));
    assert(v[3] == (r.aggregates@[3].0@, r.aggregates@[3].1));
}

/// A rollup is due where it does not exist, or where one of its sources was modified after
/// it; never without a source. Its buckets are five minutes, an hour or a day wide; raw
/// samples have none.
pub proof fn changed_sources_are_rolled_up(
    modified: Option<i128>,
    sources: &Vec<i128>,
    tier: RollupTier,
    r: Option<i64>,
)
    requires
        call_ensures(rollup_due, (modified, sources, tier), r),
    ensures
        sources@.len() == 0 || tier == RollupTier::Raw ==> r is None,
        sources@.len() > 0 && tier != RollupTier::Raw ==> (r is Some <==> modified is None || exists|
            i: int,
        |
            0 <= i < sources@.len() && #[trigger] sources@[i] > modified->0),
        r is Some && tier == RollupTier::M5 ==> r->0 == 5 * 60 * 1_000_000_000,
        r is Some && tier == RollupTier::H1 ==> r->0 == 60 * 60 * 1_000_000_000,
        r is Some && tier == RollupTier::D1 ==> r->0 == 24 * 60 * 60 * 1_000_000_000,
{
}

/// The first call with a key leads, and nobody waits for it; each call while it executes
/// follows, and one more waits.
pub proof fn followers_are_counted(flights: Flights, key: Seq<char>)
    ensures
        !flights.dom().contains(key) ==> role(flights, key) == Role::Leader && called(
            flights,
            key,
        ).dom().contains(key) && called(flights, key)[key] == 0,
        flights.dom().contains(key) ==> role(flights, key) == Role::Follower && called(
            flights,
            key,
        ).dom().contains(key),
        flights.dom().contains(key) && flights[key] < u64::MAX ==> called(flights, key)[key]
            == flights[key] + 1,
        role(called(flights, key), key) == Role::Follower,
        role(flights.remove(key), key) == Role::Leader,
{
}

/// The samples of an instant answer have the labels and the values of the result, in its
/// order, and all the time of the query, or now where it has none. A scalar is one sample
/// without labels.
pub proof fn samples_are_stamped<V: Number>(
    v: &InstantVal<V>,
    time: i64,
    now: i64,
    r: Vec<(Labels, i64, V)>,
)
    requires
        call_ensures(instant_samples::<V>, (v, time, now), r),
    ensures
        forall|i: int|
            0 <= i < r@.len() ==> (#[trigger] r@[i]).1 == if time == i64::MAX {
                now
            } else {
                time
            },
        match *v {
            InstantVal::Scalar(x) => r@.len() == 1 && r@[0].0@ == Map::<
                Seq<char>,
                Seq<char>,
            >::empty() && r@[0].2 == x,
            InstantVal::Vector(w) => r@.len() == w@.len() && forall|i: int|
                0 <= i < r@.len() ==> (#[trigger] r@[i]).0@ == w@[i].0@ && r@[i].2 == w@[i].1,
        },
{
}

/// A vector answer holds each sample with its labels, its time and the text of its value.
pub proof fn vectors_are_answered<V: Number>(
    samples: Vec<(Labels, i64, V)>,
    r: PromResponse,
    i: int,
)
    requires
        call_ensures(PromResponse::vector::<V>, (samples,), r),
        0 <= i < samples@.len(),
    ensures
        r.status@ == "success"@,
        r.data.result_type@ == "vector"@,
        r.data.result@.len() == samples@.len(),
        r.data.result@[i].metric@ == samples@[i].0@,
        r.data.result@[i].value.0 == samples@[i].1,
        call_ensures(V::text, (samples@[i].2,), r.data.result@[i].value.1),
{
}

/// A matrix answer holds each series with its labels, and each of its points with its time
/// and the text of its value.
pub proof fn matrices_are_answered<V: Number>(
    series: &Vec<Series<V>>,
    r: PromMatrixResponse,
    i: int,
    k: int,
)
    requires
        call_ensures(PromMatrixResponse::matrix::<V>, (series,), r),
        0 <= i < series@.len(),
    ensures
        r.status@ == "success"@,
        r.data.result_type@ == "matrix"@,
        r.data.result@.len() == series@.len(),
        r.data.result@[i].metric@ == series@[i].labels@,
        r.data.result@[i].values@.len() == series@[i].points@.len(),
        0 <= k < series@[i].points@.len() ==> {
            let (point, answer) = (series@[i].points@[k], r.data.result@[i].values@[k]);
            answer.0 == point.0 && call_ensures(V::text, (point.1,), answer.1)
        },
{
}

/// The count of a double with a minus sign is the count without it, negated.
pub proof fn counts_are_signed(bits: u64)
    requires
        bits < SIGN,
    ensures
        whole_count(bits) is Some <==> whole_count((bits + SIGN) as u64) is Some,
        whole_count(bits) is Some ==> whole_count(bits)->0 >= 0 && whole_count(
            (bits + SIGN) as u64,
        )->0 == -whole_count(bits)->0,
{
    let negative = (bits + SIGN) as u64;
    assert(negative % SIGN == bits % SIGN);
    assert(SIGN == 2048 * FRACTION);
    assert(negative % FRACTION == bits % FRACTION) by {
        vstd::arithmetic::div_mod::lemma_mod_multiples_vanish(
            2048,
            bits as int,
            FRACTION as int,
        );
    }
}

} // verus!

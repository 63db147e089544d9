//! The query backend's own metrics: what is emitted of each event.
//!
//! Names carry no prefix: the source that exports them prepends its namespace.
use crate::text::owned;
use vstd::prelude::*;

verus! {

/// What is done to a metric.
#[derive(Debug, Clone, Copy, PartialEq, Eq, Structural)]
pub enum Amount {
    /// A counter goes up.
    Count(u64),
    /// A histogram takes a number.
    Observe(u64),
    /// A histogram takes a duration in seconds, given in nanoseconds.
    ObserveNanos(u128),
    /// A gauge is set.
    Level(u64),
    /// A gauge is set to the double with these bits.
    LevelBits(u64),
    /// A gauge goes up by one.
    Increment,
    /// A gauge goes down by one.
    Decrement,
}

/// A metric that is emitted, with its labels.
#[derive(Debug)]
pub struct Emission {
    pub name: &'static str,
    pub labels: Vec<(&'static str, String)>,
    pub amount: Amount,
}

/// A metric that is emitted, as a value.
pub struct EmissionView {
    pub name: Seq<char>,
    pub labels: Seq<(Seq<char>, Seq<char>)>,
    pub amount: Amount,
}

impl View for Emission {
    type V = EmissionView;

    open spec fn view(&self) -> EmissionView {
        EmissionView {
            name: self.name@,
            labels: Seq::new(self.labels@.len(), |i: int| (self.labels@[i].0@, self.labels@[i].1@)),
            amount: self.amount,
        }
    }
}

/// What was emitted, as values.
pub open spec fn emitted(log: Seq<Emission>) -> Seq<EmissionView> {
    Seq::new(log.len(), |i: int| log[i]@)
}

/// A metric without labels.
pub open spec fn plain(name: Seq<char>, amount: Amount) -> EmissionView {
    EmissionView { name, labels: Seq::empty(), amount }
}

/// A metric with one label.
pub open spec fn labelled(name: Seq<char>, key: Seq<char>, value: Seq<char>, amount: Amount) -> EmissionView {
    EmissionView { name, labels: seq![(key, value)], amount }
}

/// A metric with two labels.
pub open spec fn labelled_twice(
    name: Seq<char>,
    first: (Seq<char>, Seq<char>),
    second: (Seq<char>, Seq<char>),
    amount: Amount,
) -> EmissionView {
    EmissionView { name, labels: seq![first, second], amount }
}

fn emit(log: &mut Vec<Emission>, e: Emission)
    ensures
        emitted(final(log)@) == emitted(old(log)@).push(e@),
{
    let ghost before = log@;
    log.push(e);
    assert(emitted(log@) =~= emitted(before).push(e@));
}

fn emit_plain(log: &mut Vec<Emission>, name: &'static str, amount: Amount)
    ensures
        emitted(final(log)@) == emitted(old(log)@).push(plain(name@, amount)),
{
    let e = Emission { name, labels: Vec::new(), amount };
    assert(e@.labels =~= Seq::empty());
    emit(log, e);
}

fn emit_labelled(
    log: &mut Vec<Emission>,
    name: &'static str,
    key: &'static str,
    value: &str,
    amount: Amount,
)
    ensures
        emitted(final(log)@) == emitted(old(log)@).push(labelled(name@, key@, value@, amount)),
{
    let mut labels: Vec<(&'static str, String)> = Vec::new();
    labels.push((key, owned(value)));
    let e = Emission { name, labels, amount };
    assert(e@.labels =~= seq![(key@, value@)]);
    emit(log, e);
}

fn emit_labelled_twice(
    log: &mut Vec<Emission>,
    name: &'static str,
    first: (&'static str, &str),
    second: (&'static str, &str),
    amount: Amount,
)
    ensures
        emitted(final(log)@) == emitted(old(log)@).push(
            labelled_twice(name@, (first.0@, first.1@), (second.0@, second.1@), amount),
        ),
{
    let mut labels: Vec<(&'static str, String)> = Vec::new();
    labels.push((first.0, owned(first.1)));
    labels.push((second.0, owned(second.1)));
    let e = Emission { name, labels, amount };
    assert(e@.labels =~= seq![(first.0@, first.1@), (second.0@, second.1@)]);
    emit(log, e);
}

/// Record a served query: a request counter plus a duration histogram, labelled by
/// `api` (prometheus/loki/tempo/sql) and `signal` (logs/metrics/traces).
pub fn record_request(log: &mut Vec<Emission>, api: &str, signal: &str, nanos: u128)
    ensures
        emitted(final(log)@) == emitted(old(log)@).push(
            labelled_twice(
                "querier_requests_total"@,
                ("api"@, api@),
                ("signal"@, signal@),
                Amount::Count(1),
            ),
        ).push(
            labelled_twice(
                "querier_request_duration_seconds"@,
                ("api"@, api@),
                ("signal"@, signal@),
                Amount::ObserveNanos(nanos),
            ),
        ),
{
    emit_labelled_twice(
        log,
        "querier_requests_total",
        ("api", api),
        ("signal", signal),
        Amount::Count(1),
    );
    emit_labelled_twice(
        log,
        "querier_request_duration_seconds",
        ("api", api),
        ("signal", signal),
        Amount::ObserveNanos(nanos),
    );
}

/// Record the scan volume of one executed plan: bytes read and file groups opened,
/// labelled by `signal`.
pub fn record_scan(log: &mut Vec<Emission>, signal: &str, bytes_scanned: u64, files_opened: u64)
    ensures
        emitted(final(log)@) == emitted(old(log)@).push(
            labelled(
                "querier_bytes_scanned"@,
                "signal"@,
                signal@,
                Amount::Observe(bytes_scanned),
            ),
        ).push(
            labelled("querier_files_opened"@, "signal"@, signal@, Amount::Observe(files_opened)),
        ),
{
    emit_labelled(log, "querier_bytes_scanned", "signal", signal, Amount::Observe(bytes_scanned));
    emit_labelled(log, "querier_files_opened", "signal", signal, Amount::Observe(files_opened));
}

/// How the outcome of a cache lookup is called.
pub open spec fn lookup_outcome(hit: bool) -> Seq<char> {
    if hit {
        "hit"@
    } else {
        "miss"@
    }
}

fn outcome_of(hit: bool) -> (r: &'static str)
    ensures
        r@ == lookup_outcome(hit),
{
    if hit {
        "hit"
    } else {
        "miss"
    }
}

/// A lookup in the result cache.
pub open spec fn cache_request(result: Seq<char>) -> EmissionView {
    labelled_twice(
        "querier_cache_requests_total"@,
        ("cache"@, "result"@),
        ("result"@, result),
        Amount::Count(1),
    )
}

/// Record a result-cache lookup outcome.
pub fn record_cache(log: &mut Vec<Emission>, hit: bool)
    ensures
        emitted(final(log)@) == emitted(old(log)@).push(cache_request(lookup_outcome(hit))),
{
    emit_labelled_twice(
        log,
        "querier_cache_requests_total",
        ("cache", "result"),
        ("result", outcome_of(hit)),
        Amount::Count(1),
    );
}

/// Record a coalesced execution: a concurrent identical query awaited the in-flight
/// leader's result instead of executing the plan again.
pub fn record_coalesced(log: &mut Vec<Emission>)
    ensures
        emitted(final(log)@) == emitted(old(log)@).push(cache_request("coalesced"@)),
{
    emit_labelled_twice(
        log,
        "querier_cache_requests_total",
        ("cache", "result"),
        ("result", "coalesced"),
        Amount::Count(1),
    );
}

/// Set the current cache memory footprint (bytes).
pub fn set_cache_memory(log: &mut Vec<Emission>, bytes: u64)
    ensures
        emitted(final(log)@) == emitted(old(log)@).push(
            plain("querier_cache_memory_bytes"@, Amount::Level(bytes)),
        ),
{
    emit_plain(log, "querier_cache_memory_bytes", Amount::Level(bytes));
}

/// Increment the in-flight query gauge.
pub fn inc_inflight(log: &mut Vec<Emission>)
    ensures
        emitted(final(log)@) == emitted(old(log)@).push(
            plain("querier_inflight"@, Amount::Increment),
        ),
{
    emit_plain(log, "querier_inflight", Amount::Increment);
}

/// Decrement the in-flight query gauge.
pub fn dec_inflight(log: &mut Vec<Emission>)
    ensures
        emitted(final(log)@) == emitted(old(log)@).push(
            plain("querier_inflight"@, Amount::Decrement),
        ),
{
    emit_plain(log, "querier_inflight", Amount::Decrement);
}

/// A guard that stands for one in-flight request: the gauge goes up when it is made
/// and down when it is given back.
#[derive(Debug)]
pub struct InflightGuard;

impl InflightGuard {
    /// Mark a request as in flight; the count is released with the guard.
    #[must_use]
    pub fn new(log: &mut Vec<Emission>) -> (r: Self)
        ensures
            emitted(final(log)@) == emitted(old(log)@).push(
                plain("querier_inflight"@, Amount::Increment),
            ),
    {
        inc_inflight(log);
        InflightGuard
    }

    /// Give the guard back: the request is in flight no more.
    pub fn release(self, log: &mut Vec<Emission>)
        ensures
            emitted(final(log)@) == emitted(old(log)@).push(
                plain("querier_inflight"@, Amount::Decrement),
            ),
    {
        dec_inflight(log);
    }
}

/// What a metric adds to the number of requests in flight.
pub open spec fn inflight_step(e: EmissionView) -> int {
    if e.name != "querier_inflight"@ {
        0
    } else {
        match e.amount {
            Amount::Increment => 1,
            Amount::Decrement => -1,
            _ => 0,
        }
    }
}

/// The gauge of requests in flight after what was emitted.
pub open spec fn inflight(log: Seq<EmissionView>) -> int
    decreases log.len(),
{
    if log.len() == 0 {
        0
    } else {
        inflight(log.drop_last()) + inflight_step(log.last())
    }
}

/// The gauge shows how many guards are held: making one adds one, and giving it back
/// takes it away, whatever else was emitted in between that leaves the gauge alone.
pub proof fn guards_are_counted(before: Seq<EmissionView>, between: Seq<EmissionView>)
    requires
        inflight(between) == 0,
    ensures
        inflight(before.push(plain("querier_inflight"@, Amount::Increment))) == inflight(before)
            + 1,
        inflight(
            (before.push(plain("querier_inflight"@, Amount::Increment)) + between).push(
                plain("querier_inflight"@, Amount::Decrement),
            ),
        ) == inflight(before),
{
    let up = plain("querier_inflight"@, Amount::Increment);
    let down = plain("querier_inflight"@, Amount::Decrement);
    assert(before.push(up).drop_last() =~= before);
    inflight_adds_up(before.push(up), between);
    let most = before.push(up) + between;
    assert(most.push(down).drop_last() =~= most);
}

proof fn inflight_adds_up(a: Seq<EmissionView>, b: Seq<EmissionView>)
    ensures
        inflight(a + b) == inflight(a) + inflight(b),
    decreases b.len(),
{
    if b.len() == 0 {
        assert(a + b =~= a);
    } else {
        assert((a + b).drop_last() =~= a + b.drop_last());
        inflight_adds_up(a, b.drop_last());
    }
}

/// What is emitted of an object-store request.
pub open spec fn objectstore_metrics(nanos: u128, throttled: bool) -> Seq<EmissionView> {
    let request = seq![plain("objectstore_requests_total"@, Amount::Count(1))];
    let throttle = if throttled {
        seq![plain("objectstore_throttled_total"@, Amount::Count(1))]
    } else {
        Seq::empty()
    };
    request + throttle + seq![
        plain("objectstore_request_duration_seconds"@, Amount::ObserveNanos(nanos)),
    ]
}

/// Record an object-store request, flagging throttles.
pub fn record_objectstore(log: &mut Vec<Emission>, nanos: u128, throttled: bool)
    ensures
        emitted(final(log)@) == emitted(old(log)@) + objectstore_metrics(nanos, throttled),
{
    let ghost before = emitted(log@);
    emit_plain(log, "objectstore_requests_total", Amount::Count(1));
    if throttled {
        emit_plain(log, "objectstore_throttled_total", Amount::Count(1));
    }
    emit_plain(log, "objectstore_request_duration_seconds", Amount::ObserveNanos(nanos));
    assert(emitted(log@) =~= before + objectstore_metrics(nanos, throttled));
}

/// Record a shed query: one that could not obtain an execution permit within the
/// bounded wait.
pub fn record_shed(log: &mut Vec<Emission>)
    ensures
        emitted(final(log)@) == emitted(old(log)@).push(
            plain("querier_shed_total"@, Amount::Count(1)),
        ),
{
    emit_plain(log, "querier_shed_total", Amount::Count(1));
}

/// Record a guardrail rejection (`reason` e.g. `range`/`bytes`).
pub fn record_rejected(log: &mut Vec<Emission>, reason: &str)
    ensures
        emitted(final(log)@) == emitted(old(log)@).push(
            labelled("querier_rejected_total"@, "reason"@, reason@, Amount::Count(1)),
        ),
{
    emit_labelled(log, "querier_rejected_total", "reason", reason, Amount::Count(1));
}

/// Record an unsupported query construct (`lang` e.g. promql, `construct`).
pub fn record_unsupported(log: &mut Vec<Emission>, lang: &str, construct: &str)
    ensures
        emitted(final(log)@) == emitted(old(log)@).push(
            labelled_twice(
                "querier_unsupported_total"@,
                ("lang"@, lang@),
                ("construct"@, construct@),
                Amount::Count(1),
            ),
        ),
{
    emit_labelled_twice(
        log,
        "querier_unsupported_total",
        ("lang", lang),
        ("construct", construct),
        Amount::Count(1),
    );
}

/// Record a compaction run: input/output file counts, rows merged, and wall-clock
/// duration.
pub fn record_compaction(
    log: &mut Vec<Emission>,
    files_input: u64,
    files_output: u64,
    rows: u64,
    nanos: u128,
)
    ensures
        emitted(final(log)@) == emitted(old(log)@) + seq![
            plain("compactor_files_input_total"@, Amount::Count(files_input)),
            plain("compactor_files_output_total"@, Amount::Count(files_output)),
            plain("compactor_rollup_rows_total"@, Amount::Count(rows)),
            plain("compactor_duration_seconds"@, Amount::ObserveNanos(nanos)),
        ],
{
    emit_plain(log, "compactor_files_input_total", Amount::Count(files_input));
    emit_plain(log, "compactor_files_output_total", Amount::Count(files_output));
    emit_plain(log, "compactor_rollup_rows_total", Amount::Count(rows));
    emit_plain(log, "compactor_duration_seconds", Amount::ObserveNanos(nanos));
}

/// Record retention deletions.
pub fn record_retention_deleted(log: &mut Vec<Emission>, files: u64)
    ensures
        emitted(final(log)@) == emitted(old(log)@).push(
            plain("compactor_retention_deleted_total"@, Amount::Count(files)),
        ),
{
    emit_plain(log, "compactor_retention_deleted_total", Amount::Count(files));
}

/// Set the compactor lag (seconds behind the active partition boundary), given by the
/// bits of the double.
pub fn set_compactor_lag(log: &mut Vec<Emission>, seconds_bits: u64)
    ensures
        emitted(final(log)@) == emitted(old(log)@).push(
            plain("compactor_lag_seconds"@, Amount::LevelBits(seconds_bits)),
        ),
{
    emit_plain(log, "compactor_lag_seconds", Amount::LevelBits(seconds_bits));
}

/// Record a query-frontend split: one split, into `shards` shards.
pub fn record_shard_split(log: &mut Vec<Emission>, shards: u64)
    ensures
        emitted(final(log)@) == emitted(old(log)@).push(
            plain("querier_shard_splits_total"@, Amount::Count(1)),
        ).push(plain("querier_shards_per_query"@, Amount::Observe(shards))),
{
    emit_plain(log, "querier_shard_splits_total", Amount::Count(1));
    emit_plain(log, "querier_shards_per_query", Amount::Observe(shards));
}

/// Record a per-shard cache lookup outcome (`result=hit|miss`).
pub fn record_shard_cache(log: &mut Vec<Emission>, hit: bool)
    ensures
        emitted(final(log)@) == emitted(old(log)@).push(
            labelled(
                "querier_shard_cache_requests_total"@,
                "result"@,
                lookup_outcome(hit),
                Amount::Count(1),
            ),
        ),
{
    emit_labelled(
        log,
        "querier_shard_cache_requests_total",
        "result",
        outcome_of(hit),
        Amount::Count(1),
    );
}

} // verus!

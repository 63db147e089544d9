//! The cross-signal SQL endpoint: the budget that a query is held to before it runs.
use crate::telemetry::{emitted, labelled, record_rejected, Amount, Emission};
use crate::text::{
    begins_with, contains, decimal, decimal_text, ends_with, joined, occurs_in, starts_with,
    strip_suffix,
};
use vstd::prelude::*;

verus! {

/// A text in lower case.
pub uninterp spec fn lowercased(s: Seq<char>) -> Seq<char>;

/// `str::to_lowercase`. Claimed: it is a function of the text alone.
pub assume_specification[ str::to_lowercase ](s: &str) -> (r: String)
    ensures
        r@ == lowercased(s@),
;

/// How many bytes of Parquet files each signal table has.
#[derive(Debug, Clone, Copy, PartialEq, Eq, Structural)]
pub struct SignalBytes {
    pub logs: u64,
    pub traces: u64,
    pub metrics: u64,
}

/// A sum that stops at the greatest number.
pub open spec fn bounded(n: int) -> u64 {
    if n > u64::MAX {
        u64::MAX
    } else {
        n as u64
    }
}

/// The bytes of a table, where the query speaks of it.
pub open spec fn table_bytes(lower: Seq<char>, table: Seq<char>, bytes: u64) -> int {
    if occurs_in(lower, table) {
        bytes as int
    } else {
        0
    }
}

/// The bytes of all tables of which a query speaks, given in lower case.
pub open spec fn referenced_bytes(sizes: SignalBytes, lower: Seq<char>) -> int {
    table_bytes(lower, "logs"@, sizes.logs) + table_bytes(lower, "traces"@, sizes.traces)
        + table_bytes(lower, "metrics"@, sizes.metrics)
}

/// The scan-size estimate of a query that is given in lower case.
pub fn scan_bytes(sizes: &SignalBytes, lower: &str) -> (r: u64)
    ensures
        r == bounded(referenced_bytes(*sizes, lower@)),
{
    let mut total: u64 = 0;
    if contains(lower, "logs") {
        total = sizes.logs;
    }
    if contains(lower, "traces") {
        total = total.saturating_add(sizes.traces);
    }
    if contains(lower, "metrics") {
        total = total.saturating_add(sizes.metrics);
    }
    total
}

/// Conservative scan-size estimate: the Parquet byte sizes of the signal tables that the
/// query references, in any case. It over-estimates (whole tables), which is the safe
/// direction for a guardrail.
pub fn estimate_scan_bytes(sizes: &SignalBytes, sql: &str) -> (r: u64)
    ensures
        r == bounded(referenced_bytes(*sizes, lowercased(sql@))),
{
    let lower = sql.to_lowercase();
    scan_bytes(sizes, lower.as_str())
}

/// Whether a file is a Parquet file: its name has the extension `parquet`.
pub open spec fn has_parquet_extension(name: Seq<char>) -> bool {
    ends_with(name, ".parquet"@) && name.len() > ".parquet"@.len()
}

/// Whether a file is a Parquet file, by its name.
pub fn is_parquet(name: &str) -> (r: bool)
    ensures
        r == has_parquet_extension(name@),
{
    match strip_suffix(name, ".parquet") {
        Some(stem) => {
            assert(name@ == stem@ + ".parquet"@);
            stem.as_str().unicode_len() > 0
        },
        None => false,
    }
}

/// The bytes of the Parquet files among some files.
pub open spec fn parquet_sum(files: Seq<(String, u64)>) -> int
    decreases files.len(),
{
    if files.len() == 0 {
        0
    } else {
        parquet_sum(files.drop_last()) + if has_parquet_extension(files.last().0@) {
            files.last().1 as int
        } else {
            0
        }
    }
}

proof fn sums_grow(files: Seq<(String, u64)>)
    ensures
        parquet_sum(files) >= 0,
    decreases files.len(),
{
    if files.len() > 0 {
        sums_grow(files.drop_last());
    }
}

/// The bytes of the Parquet files among the files of a directory and of those below it.
pub fn dir_parquet_bytes(files: &Vec<(String, u64)>) -> (r: u64)
    ensures
        r == bounded(parquet_sum(files@)),
{
    let mut total: u64 = 0;
    let mut i: usize = 0;
    assert(files@.take(0) =~= Seq::empty());
    while i < files.len()
        invariant
            i <= files@.len(),
            total == bounded(parquet_sum(files@.take(i as int))),
        decreases files.len() - i,
    {
        proof {
            sums_grow(files@.take(i as int));
            assert(files@.take(i + 1).drop_last() =~= files@.take(i as int));
            assert(files@.take(i + 1).last() == files@[i as int]);
        }
        if is_parquet(files[i].0.as_str()) {
            total = total.saturating_add(files[i].1);
        }
        i = i + 1;
    }
    assert(files@.take(files@.len() as int) =~= files@);
    total
}

/// What is said of a query over the budget.
pub open spec fn over_budget(estimated: u64, max: u64) -> Seq<char> {
    "guardrail: query would scan ~"@ + decimal(estimated as nat) + " bytes, over the "@ + decimal(
        max as nat,
    ) + " byte limit (NFR9); narrow the time range or add a filter"@
}

/// Hold an estimate to the scan budget: it is refused where it exceeds the budget, with
/// a message that starts with `guardrail:`.
pub fn scan_guard(estimated: u64, max: u64) -> (r: Result<(), String>)
    ensures
        r is Err <==> estimated > max,
        r matches Err(m) ==> m@ == over_budget(estimated, max),
{
    if estimated > max {
        let a = joined("guardrail: query would scan ~", decimal_text(estimated).as_str());
        let b = joined(a.as_str(), " bytes, over the ");
        let c = joined(b.as_str(), decimal_text(max).as_str());
        Err(
            joined(c.as_str(), " byte limit (NFR9); narrow the time range or add a filter"),
        )
    } else {
        Ok(())
    }
}

/// Admit an ad-hoc SQL query under the scan budget, given the sizes of the tables; a
/// query that is refused is recorded.
pub fn handle_sql(
    sizes: &SignalBytes,
    max_scan_bytes: u64,
    sql: &str,
    log: &mut Vec<Emission>,
) -> (r: Result<(), String>)
    ensures
        emitted(final(log)@) == if r is Err {
            emitted(old(log)@).push(
                labelled("querier_rejected_total"@, "reason"@, "bytes"@, Amount::Count(1)),
            )
        } else {
            emitted(old(log)@)
        },
        r is Err <==> bounded(referenced_bytes(*sizes, lowercased(sql@))) > max_scan_bytes,
        r matches Err(m) ==> m@ == over_budget(
            bounded(referenced_bytes(*sizes, lowercased(sql@))),
            max_scan_bytes,
        ),
{
    let verdict = scan_guard(estimate_scan_bytes(sizes, sql), max_scan_bytes);
    if verdict.is_err() {
        record_rejected(log, "bytes");
    }
    verdict
}

/// The HTTP status of a failed query: 422 for a breach of the guardrail, else 400.
pub open spec fn failure_status(message: Seq<char>) -> u16 {
    if begins_with(message, "guardrail:"@) {
        422
    } else {
        400
    }
}

/// The HTTP status of a failed query, by its message.
pub fn sql_error_status(message: &str) -> (r: u16)
    ensures
        r == failure_status(message@),
{
    if starts_with(message, "guardrail:") {
        422
    } else {
        400
    }
}

/// Whatever the estimate and the budget, a query over the budget is answered with
/// status 422.
pub proof fn over_budget_is_unprocessable(estimated: u64, max: u64)
    ensures
        failure_status(over_budget(estimated, max)) == 422,
{
    reveal_strlit("guardrail:");
    reveal_strlit("guardrail: query would scan ~");
    let m = over_budget(estimated, max);
    assert(m.subrange(0, "guardrail:"@.len() as int) =~= "guardrail:"@);
}

/// A query that speaks of no signal table scans nothing, and is never over the budget.
pub proof fn unrelated_queries_are_free(sizes: SignalBytes, lower: Seq<char>)
    requires
        !occurs_in(lower, "logs"@),
        !occurs_in(lower, "traces"@),
        !occurs_in(lower, "metrics"@),
    ensures
        referenced_bytes(sizes, lower) == 0,
{
}

} // verus!

# querier

The logic of a telemetry query backend over columnar files: PromQL instant and range
queries, metadata queries, TraceQL parsing, raw SQL guardrails, rollup tiers, request
routing, request coalescing and self-telemetry.

- `src/` is the library, verified with Verus.
- `tests/` runs it on concrete inputs.
- `app/` is the service around it: HTTP, storage, metrics, and the tables of DataFusion
  (`app/frames.rs` needs the `datafusion` crate).

## How a query is answered

1. `promql::parse` reads the text. `range::handle_range` and `response::handle_instant`
   decide how it is served: which tables over which windows (`windows`), and which
   scans (`plan`, `histogram`, `heatmap`).
2. The service performs the scans and hands the rows back.
3. `range::group_range_series` and `range::instant_vector` turn rows into series,
   `evaluate` computes the value of the expression from them, and
   `range::merge_shard` and `range::finish_range` put the shards together.

Times are nanoseconds. Values are of any type that implements `number::Number`;
contracts that speak of arithmetic say which operation was applied to which operands.

## What is trusted

Parsing PromQL (`promql-parser`) and JSON (`serde_json`), and a few functions of the
standard library on characters and strings. Each stands in a function or declaration
of its own, whose documentation says what is claimed of it.

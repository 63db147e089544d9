//! Query planning and evaluation for a metrics, logs and traces backend.
pub mod text;
pub mod textmap;
pub mod labels;
pub mod promql;
pub mod quantile;
pub mod rollup;
pub mod windows;
pub mod number;
pub mod selector;
pub mod classify;
pub mod operators;
pub mod grid;
pub mod series;
pub mod matching;
pub mod aggregate;
pub mod binary;
pub mod functions;
pub mod grouping;
pub mod plan;
pub mod planned;
pub mod rank;
pub mod slots;
pub mod histogram;
pub mod heatmap;
pub mod histograms;
pub mod detected;
pub mod determined;
pub mod eval;
pub mod needed;
pub mod evaluate;
pub mod range;
pub mod ranged;
pub mod merging;
pub mod served;
pub mod udf;
pub mod metadata;
pub mod named;
pub mod traceql;
pub mod telemetry;
pub mod single_flight;
pub mod sql;
pub mod routes;
pub mod requested;
pub mod response;
pub mod recorded;
pub mod promises;

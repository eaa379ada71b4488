//! Tools around an Arrow telemetry pipeline.
//!
//! * Dictionary unification: four strategies that give the dictionary columns of several record
//!   batches one dictionary per column, the data they are measured on, and the figures that are
//!   reported about them.
//! * A chaos exporter: the decisions of an exporter that acknowledges, refuses and delays
//!   messages as a control file tells it to.

pub mod analysis;
pub mod arrow;
pub mod building;
pub mod chaos;
pub mod chaos_session;
pub mod columns;
pub mod dedup;
pub mod draw_laws;
pub mod draws;
pub mod encoding;
pub mod entries;
pub mod feasible;
pub mod index_type;
pub mod ipc;
pub mod laws;
pub mod model;
pub mod nested;
pub mod otap;
pub mod otap_laws;
pub mod otap_logs;
pub mod otap_metrics;
pub mod otap_traces;
pub mod rate;
pub mod repeatable;
pub mod report;
pub mod report_laws;
pub mod results;
pub mod strategy_laws;
pub mod text;
pub mod unification;
pub mod unify;
pub mod value_key;
pub mod workload;
pub mod workload_laws;

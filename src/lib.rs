//! Folds Darwin Push Port train-running updates into a per-trip projection
//! shaped after GTFS-Realtime, correlated with a static GTFS schedule index.

pub mod darwin_types;
pub mod gc;
pub mod idempotence;
pub mod ingress;
pub mod merge;
pub mod persistence;
pub mod processor;
pub mod seq_util;
pub mod state;
pub mod static_data;

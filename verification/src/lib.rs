//! The sync core of a reading-notes client: outbox collapsing, pull merging, archive export and
//! import, signal bookkeeping and margin-note replacement.

pub mod annotations;
pub mod calendar;
pub mod call_laws;
pub mod collapse_laws;
pub mod columns;
pub mod embed;
pub mod engine;
pub mod export;
pub mod export_laws;
pub mod http;
pub mod http_laws;
pub mod import;
pub mod import_laws;
pub mod importing;
pub mod json;
pub mod json_text;
pub mod margin_laws;
pub mod merge;
pub mod mirror;
pub mod names;
pub mod notes;
pub mod outbox;
pub mod pull;
pub mod pull_laws;
pub mod report_laws;
pub mod round_trip;
pub mod selection_laws;
pub mod session;
pub mod signal_laws;
pub mod signals;
pub mod staging_laws;
pub mod tables;
pub mod tags;
pub mod text;
pub mod types;
pub mod value_laws;
pub mod write_laws;

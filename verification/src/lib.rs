//! The core of a mock receiver of logs, metrics and traces: the decoders of
//! the wire formats, the store in memory, and the queries on it, with their
//! contracts.

pub mod counters;
pub mod decode;
pub mod labels;
pub mod logs;
pub mod metadata;
pub mod metrics;
pub mod options;
pub mod otlp;
pub mod otlp_receiver;
pub mod prometheus;
pub mod queries;
pub mod query;
pub mod regex;
pub mod router;
pub mod sample;
pub mod state;
pub mod strmap;
pub mod text;
pub mod time;
pub mod traces;

use vstd::prelude::*;

verus! {

/// What the receiver writes to its log while it works.
#[derive(Clone, Copy, Debug)]
pub struct Print {
    pub logs: bool,
    pub headers: bool,
    pub metrics: bool,
    pub spans: bool,
}

/// How the receiver treats what it is sent.
#[derive(Clone, Copy, Debug)]
pub struct Options {
    pub print: Print,
    /// Out of a hundred requests, how many are refused on purpose.
    pub drop_rate: i64,
    /// How long each request is held back before it is handled.
    pub delay_time: std::time::Duration,
    pub store_traces: bool,
    pub store_metrics: bool,
    pub store_logs: bool,
}

} // verus!

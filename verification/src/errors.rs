//! The error taxonomy: only a configuration error is fatal; everything
//! else is logged and the next scheduled cycle is the retry.

use vstd::prelude::*;

verus! {

/// Every failure the monitor distinguishes.
#[derive(Debug)]
pub enum MonitorError {
    /// The configuration could not be loaded or is invalid; startup aborts.
    ConfigError { message: String },
    /// A trigger or fetch call failed: non-2xx status or transport failure.
    ApiError { group: Option<String>, status: Option<u16>, body: Option<String> },
    /// A response body could not be parsed into the topology model.
    DecodeError { message: String },
    /// Rendering or pushing the metrics failed.
    ExportError { message: String },
}

impl MonitorError {
    /// Only a configuration error aborts the process; every other
    /// failure is recoverable and the cycle goes on.
    pub fn is_fatal(&self) -> (r: bool)
        ensures
            r == (self is ConfigError),
    {
        match self {
            MonitorError::ConfigError { .. } => true,
            _ => false,
        }
    }
}

} // verus!

//! A catch-all HTTP request sink's verified core: every inbound request is
//! reduced to a bounded, structured summary (method, path with query, client
//! address, flattened headers, truncated body preview) that is then handed to
//! a logging sink.
//!
//! The summarization pipeline is total: arbitrary bytes, invalid UTF-8 and
//! duplicate headers are all representable in the output, so no request can
//! fail to be captured.

use vstd::prelude::*;

pub mod config;
pub mod summary;
pub mod utf8_lossy;

verus! {

/// Upper bound, in bytes, on the captured body preview.
pub const MAX_PREVIEW_BYTES: usize = 65536;

} // verus!

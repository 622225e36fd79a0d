//! Process configuration resolved once at startup: the listen port and a
//! toggle that adds a file-backed sink beside stdout logging. Reading the
//! environment happens outside the library; this type only carries the
//! resolved values into the server.

use vstd::prelude::*;

verus! {

/// Startup configuration for the request sink.
pub struct Config {
    /// Port the listener binds to, in string form.
    pub port: String,
    /// When true, log records are also appended to a file.
    pub log_to_file: bool,
}

impl Config {
    /// Builds a configuration from already-resolved values.
    pub fn new(port: String, log_to_file: bool) -> (r: Config)
        ensures
            r.port@ == port@,
            r.log_to_file == log_to_file,
    {
        Config { port, log_to_file }
    }
}

} // verus!

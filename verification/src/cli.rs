//! What the command line asks for.

use vstd::prelude::*;

use crate::config::Transport;

verus! {

/// `std::path::PathBuf`, carried through without a look inside.
#[verifier::external_type_specification]
#[verifier::external_body]
pub struct ExPathBuf(std::path::PathBuf);

/// How results are written.
#[derive(Debug, Clone, Copy, PartialEq, Eq, Structural)]
pub enum OutputFormat {
    /// A table for people, on standard output.
    Stdout,
    /// JSON, on standard output or in a file.
    Json,
    /// A table for people, in a file.
    Log,
}

/// The arguments of the command line.
#[derive(Debug)]
pub struct Cli {
    /// Target servers, each `LABEL=IP[:PORT]`.
    pub servers: Vec<String>,
    /// DNS names to query.
    pub names: Vec<String>,
    /// File of further names, one on each line, as it is shown.
    pub names_file: Option<String>,
    /// Record types, separated by commas.
    pub record_types: Vec<String>,
    /// DNS transport.
    pub transport: Transport,
    /// Measured requests per target.
    pub requests: Option<u64>,
    /// Measured duration per target, such as `30s` or `5m`.
    pub duration: Option<String>,
    /// Queries in flight per target.
    pub concurrency: usize,
    /// Largest number of queries per second and target.
    pub rate: Option<u64>,
    /// Timeout of each network operation.
    pub timeout: String,
    /// Queries per target before the measurement.
    pub warmup: u64,
    /// Whether DNSSEC records are asked for.
    pub dnssec: bool,
    /// EDNS payload size that queries advertise.
    pub edns_payload: u16,
    /// Worker threads.
    pub workers: usize,
    /// Offset of the query plan.
    pub seed: u64,
    /// How results are written.
    pub output: OutputFormat,
    /// File that results are written to.
    pub output_file: Option<std::path::PathBuf>,
}

} // verus!

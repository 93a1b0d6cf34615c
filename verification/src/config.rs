//! Configuration values and the command line, as plain data.
//!
//! Loading the configuration file, overlaying `PEVM_`-prefixed environment
//! variables and parsing the command line happen in the unverified shell;
//! the parsed values are handed over in these types.

use vstd::prelude::*;

verus! {

/// The command line: an optional configuration file path and a flag that
/// prints the build version and exits.
#[derive(Debug)]
pub struct Cli {
    pub config: Option<String>,
    pub version: bool,
}

/// The configuration of one run: the execution-layer JSON-RPC URL, the
/// first block to analyze, the chain id, the HTTP bind address and the
/// store's connection string.
#[derive(Debug)]
pub struct Config {
    pub execution_api: String,
    pub start_block: i64,
    pub chain_id: i64,
    pub server_addr: String,
    pub database_url: String,
}

} // verus!

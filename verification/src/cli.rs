//! The command line of the `hmn` client, as plain values. Parsing the
//! arguments into these values is done at the edge.

use vstd::prelude::*;

verus! {

#[derive(Debug, Clone, PartialEq, Eq)]
pub struct Cli {
    pub config: Option<String>,
    pub daemon_url: Option<String>,
    pub verbose: u8,
    pub json: bool,
    pub command: Command,
}

#[derive(Debug, Clone, PartialEq, Eq)]
pub enum Command {
    Search { mode: SearchMode },
    Status,
    Mcp,
    Vault { op: VaultOp },
}

#[derive(Debug, Clone, PartialEq, Eq)]
pub enum VaultOp {
    Create { path: String, name: Option<String> },
    List,
    Status { target: Option<String> },
    Terminate { target: String, yes: bool },
    Pause { target: String },
    Resume { target: String },
    Reset { target: String, rebuild: bool, yes: bool },
    Rename { target: String, new_name: String },
    Rescan { target: String, yes: bool },
    Watch { target: Option<String>, all: bool },
}

#[derive(Debug, Clone, PartialEq, Eq)]
pub enum SearchMode {
    Filesystem { query: String, prefix: Option<String>, limit: Option<usize>, vaults: Vec<String> },
    Content { query: String, prefix: Option<String>, limit: Option<usize>, vaults: Vec<String> },
    Semantic { query: String, prefix: Option<String>, limit: Option<usize>, vaults: Vec<String> },
}

/// Whether a vault operation destroys or rebuilds state and so asks for
/// confirmation unless `--yes` was given.
pub fn needs_confirmation(op: &VaultOp) -> (r: bool)
    ensures
        r == match *op {
            VaultOp::Terminate { yes, .. } => !yes,
            VaultOp::Reset { rebuild, yes, .. } => rebuild && !yes,
            VaultOp::Rescan { yes, .. } => !yes,
            _ => false,
        },
{
    match op {
        VaultOp::Terminate { yes, .. } => !*yes,
        VaultOp::Reset { rebuild, yes, .. } => *rebuild && !*yes,
        VaultOp::Rescan { yes, .. } => !*yes,
        _ => false,
    }
}

} // verus!

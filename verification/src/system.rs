//! Plain records crossing the command boundary.

use vstd::prelude::*;

verus! {

/// Basic facts about the host, gathered outside the engine.
pub struct SystemInfo {
    pub hostname: String,
    pub kernel: String,
    pub distro: String,
    pub uptime: String,
}

/// The outcome of one external tool invocation.
pub struct CommandResult {
    pub success: bool,
    pub stdout: String,
    pub stderr: String,
}

} // verus!

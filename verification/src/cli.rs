//! The command line of the gateway: its commands and their arguments.
use vstd::prelude::*;

use crate::config::{RunMode, TokenScope};

verus! {

/// The run mode as the command line names it.
#[derive(Debug, Clone, Copy, PartialEq, Eq, Structural)]
pub enum RunModeArg {
    Extension,
    General,
    Both,
}

/// The token scope as the command line names it.
#[derive(Debug, Clone, Copy, PartialEq, Eq, Structural)]
pub enum TokenScopeArg {
    Admin,
    Mcp,
}

/// The commands that act on tokens.
#[derive(Debug, Clone)]
pub enum TokenCommand {
    /// Replace the token of a scope with a fresh one.
    Rotate { config: Option<String>, scope: TokenScopeArg },
}

/// The commands of the gateway.
#[derive(Debug, Clone)]
pub enum Commands {
    /// Run the gateway, with the mode and listen address optionally overridden.
    Run { config: Option<String>, mode: Option<RunModeArg>, listen: Option<String> },
    /// Write a new configuration file.
    Init { config: Option<String>, mode: RunModeArg, force: bool },
    /// Check a configuration file.
    Validate { config: Option<String> },
    /// Act on tokens.
    Token { command: TokenCommand },
    /// Convert a configuration file between format versions.
    MigrateConfig { from: String, to: String, input: String, output: String },
}

/// A parsed command line.
#[derive(Debug, Clone)]
pub struct Cli {
    pub command: Commands,
}

/// The run mode a command-line run mode stands for.
pub open spec fn run_mode_of(a: RunModeArg) -> RunMode {
    match a {
        RunModeArg::Extension => RunMode::Extension,
        RunModeArg::General => RunMode::General,
        RunModeArg::Both => RunMode::Both,
    }
}

/// The token scope a command-line token scope stands for.
pub open spec fn token_scope_of(a: TokenScopeArg) -> TokenScope {
    match a {
        TokenScopeArg::Admin => TokenScope::Admin,
        TokenScopeArg::Mcp => TokenScope::Mcp,
    }
}

impl From<RunModeArg> for RunMode {
    fn from(value: RunModeArg) -> (m: RunMode) {
        match value {
            RunModeArg::Extension => RunMode::Extension,
            RunModeArg::General => RunMode::General,
            RunModeArg::Both => RunMode::Both,
        }
    }
}

impl vstd::std_specs::convert::FromSpecImpl<RunModeArg> for RunMode {
    open spec fn obeys_from_spec() -> bool {
        true
    }

    open spec fn from_spec(value: RunModeArg) -> RunMode {
        run_mode_of(value)
    }
}

impl From<TokenScopeArg> for TokenScope {
    fn from(value: TokenScopeArg) -> (s: TokenScope) {
        match value {
            TokenScopeArg::Admin => TokenScope::Admin,
            TokenScopeArg::Mcp => TokenScope::Mcp,
        }
    }
}

impl vstd::std_specs::convert::FromSpecImpl<TokenScopeArg> for TokenScope {
    open spec fn obeys_from_spec() -> bool {
        true
    }

    open spec fn from_spec(value: TokenScopeArg) -> TokenScope {
        token_scope_of(value)
    }
}

/// Distinct command-line run modes stand for distinct run modes, and so do token
/// scopes: no choice on the command line is lost.
pub proof fn lemma_arguments_injective(a: RunModeArg, b: RunModeArg, s: TokenScopeArg, t: TokenScopeArg)
    ensures
        run_mode_of(a) == run_mode_of(b) ==> a == b,
        token_scope_of(s) == token_scope_of(t) ==> s == t,
{
}

} // verus!

//! The command line: what a user can ask for, and the exit code of the process.

use vstd::prelude::*;
use crate::text;

verus! {

/// A command line.
#[derive(Debug)]
pub struct Cli {
    pub cmd: Cmd,
}

/// The subcommands with their arguments.
#[derive(Debug)]
pub enum Cmd {
    /// Create a worktree over a host directory.
    Fork { path: String, name: Option<String>, force_path: bool },
    /// Run a command in the merged view of a worktree.
    Run { id: String, cmd: Vec<String> },
    /// Show what a worktree changes.
    Diff { id: String, json: bool, content: bool, stat: bool },
    /// Merge a worktree into the host directory.
    Apply { id: String, dry_run: bool, json: bool },
    /// Discard a worktree.
    Drop { id: String, force: bool },
    /// List the worktrees.
    List { json: bool },
    /// Show one worktree.
    Status { id: String, json: bool },
    /// Check the installation.
    Doctor,
}

/// What `fork` is asked for.
#[derive(Debug)]
pub struct ForkArgs {
    pub path: String,
    pub name: Option<String>,
    pub force_path: bool,
}

/// What `run` is asked for.
#[derive(Debug)]
pub struct RunArgs {
    pub id: String,
    pub cmd: Vec<String>,
}

/// What `diff` is asked for.
#[derive(Debug)]
pub struct DiffArgs {
    pub id: String,
    pub json: bool,
    pub content: bool,
    pub stat: bool,
}

/// What `apply` is asked for.
#[derive(Debug)]
pub struct ApplyArgs {
    pub id: String,
    pub dry_run: bool,
    pub json: bool,
}

/// What `drop` is asked for.
#[derive(Debug)]
pub struct DropArgs {
    pub id: String,
    pub force: bool,
}

/// The command to carry out.
#[derive(Debug)]
pub enum Call {
    Fork(ForkArgs),
    Run(RunArgs),
    Diff(DiffArgs),
    Apply(ApplyArgs),
    Drop(DropArgs),
    List { json: bool },
    Status { id: String, json: bool },
    Doctor,
}

/// How a command ended: with an error, or with the code that `run` and `apply`
/// give.
#[derive(Clone, Copy, Debug, PartialEq, Eq, Structural)]
pub enum Ending {
    Failed,
    Done,
    Code(i32),
}

/// The command that a command line stands for.
pub fn dispatch(cli: Cli) -> (r: Call)
    ensures
        match cli.cmd {
            Cmd::Fork { path, name, force_path } => r == Call::Fork(
                (ForkArgs { path, name, force_path }),
            ),
            Cmd::Run { id, cmd } => r == Call::Run((RunArgs { id, cmd })),
            Cmd::Diff { id, json, content, stat } => r == Call::Diff(
                (DiffArgs { id, json, content, stat }),
            ),
            Cmd::Apply { id, dry_run, json } => r == Call::Apply((ApplyArgs { id, dry_run, json })),
            Cmd::Drop { id, force } => r == Call::Drop((DropArgs { id, force })),
            Cmd::List { json } => r == (Call::List { json }),
            Cmd::Status { id, json } => r == (Call::Status { id, json }),
            Cmd::Doctor => r == Call::Doctor,
        },
{
    match cli.cmd {
        Cmd::Fork { path, name, force_path } => Call::Fork(ForkArgs { path, name, force_path }),
        Cmd::Run { id, cmd } => Call::Run(RunArgs { id, cmd }),
        Cmd::Diff { id, json, content, stat } => Call::Diff(DiffArgs { id, json, content, stat }),
        Cmd::Apply { id, dry_run, json } => Call::Apply(ApplyArgs { id, dry_run, json }),
        Cmd::Drop { id, force } => Call::Drop(DropArgs { id, force }),
        Cmd::List { json } => Call::List { json },
        Cmd::Status { id, json } => Call::Status { id, json },
        Cmd::Doctor => Call::Doctor,
    }
}

/// The exit code of the process: an error exits with 1, a command without a
/// code of its own with 0.
pub fn exit_code(ending: Ending) -> (r: i32)
    ensures
        r == match ending {
            Ending::Failed => 1i32,
            Ending::Done => 0i32,
            Ending::Code(c) => c,
        },
{
    match ending {
        Ending::Failed => 1,
        Ending::Done => 0,
        Ending::Code(c) => c,
    }
}

/// The line that reports an error.
pub fn error_line(error: &str) -> (r: String)
    ensures
        r@ == "cowt: error: "@ + error@,
{
    text::cat2("cowt: error: ", error)
}

} // verus!

//! The command-line surface as data: the command tree and the rendering of
//! each command back into the argument list that reproduces it.

use crate::numeral::dec_digits;
use crate::numeral::usize_to_string;
use vstd::prelude::*;

verus! {

/// Arguments for adding a source repository.
#[derive(Debug, PartialEq)]
pub struct ReadRepoAddArgs {
    /// Path of the repository to add.
    pub path: String,
}

/// Arguments for listing the configured source repositories.
#[derive(Debug, PartialEq, Default)]
pub struct ReadRepoListArgs;

/// Source-repository configuration commands.
#[derive(Debug, PartialEq)]
pub enum ReadRepoCommand {
    /// Add a source repository.
    Add(ReadRepoAddArgs),
    /// List the configured source repositories.
    List(ReadRepoListArgs),
}

/// The `read-repo` command group.
#[derive(Debug, PartialEq)]
pub struct ReadRepoArgs {
    /// The subcommand to run.
    pub command: ReadRepoCommand,
}

/// Arguments for setting the target repository.
#[derive(Debug, PartialEq)]
pub struct ThisRepoSetArgs {
    /// Path of the repository vanity commits are written to.
    pub path: String,
}

/// Arguments for showing the configured target repository.
#[derive(Debug, PartialEq, Default)]
pub struct ThisRepoShowArgs;

/// Target-repository configuration commands.
#[derive(Debug, PartialEq)]
pub enum ThisRepoCommand {
    /// Set the target repository.
    SetRepo(ThisRepoSetArgs),
    /// Show the configured target repository.
    Show(ThisRepoShowArgs),
}

/// The `this-repo` command group.
#[derive(Debug, PartialEq)]
pub struct ThisRepoArgs {
    /// The subcommand to run.
    pub command: ThisRepoCommand,
}

/// Arguments of a sync run.
#[derive(Debug, PartialEq)]
pub struct SyncArgs {
    /// Preview mode: compute the pending set but create nothing.
    pub dry_run: bool,
    /// Optional cap on the number of commits to create in this run.
    pub limit: Option<usize>,
    /// Bypass the origin safety check on the target repository.
    pub allow_non_vanity_target: bool,
}

impl Default for SyncArgs {
    /// A plain run: apply, no cap, guard on.
    fn default() -> (r: Self)
        ensures
            !r.dry_run,
            r.limit is None,
            !r.allow_non_vanity_target,
    {
        SyncArgs { dry_run: false, limit: None, allow_non_vanity_target: false }
    }
}

/// The command to run.
#[derive(Debug, PartialEq)]
pub enum Command {
    /// Source-repository configuration commands.
    ReadRepo(ReadRepoArgs),
    /// Target-repository configuration commands.
    ThisRepo(ThisRepoArgs),
    /// Mirror the configured source repositories into the target.
    Sync(SyncArgs),
}

/// The rendered argument values of a vector of strings.
pub open spec fn args_views(s: Seq<String>) -> Seq<Seq<char>> {
    s.map_values(|a: String| a@)
}

impl ReadRepoArgs {
    /// The argument list that reproduces this command.
    pub open spec fn to_args_spec(&self) -> Seq<Seq<char>> {
        match &self.command {
            ReadRepoCommand::Add(a) => seq!["add"@, a.path@],
            ReadRepoCommand::List(_) => seq!["list"@],
        }
    }

    /// Renders the argument list that reproduces this command.
    pub fn to_args(&self) -> (r: Vec<String>)
        ensures
            args_views(r@) == self.to_args_spec(),
    {
        let mut r: Vec<String> = Vec::new();
        match &self.command {
            ReadRepoCommand::Add(a) => {
                r.push("add".to_owned());
                r.push(a.path.clone());
            },
            ReadRepoCommand::List(_) => {
                r.push("list".to_owned());
            },
        }
        proof {
            assert(args_views(r@) =~= self.to_args_spec());
        }
        r
    }
}

impl ThisRepoArgs {
    /// The argument list that reproduces this command.
    pub open spec fn to_args_spec(&self) -> Seq<Seq<char>> {
        match &self.command {
            ThisRepoCommand::SetRepo(a) => seq!["set"@, a.path@],
            ThisRepoCommand::Show(_) => seq!["show"@],
        }
    }

    /// Renders the argument list that reproduces this command.
    pub fn to_args(&self) -> (r: Vec<String>)
        ensures
            args_views(r@) == self.to_args_spec(),
    {
        let mut r: Vec<String> = Vec::new();
        match &self.command {
            ThisRepoCommand::SetRepo(a) => {
                r.push("set".to_owned());
                r.push(a.path.clone());
            },
            ThisRepoCommand::Show(_) => {
                r.push("show".to_owned());
            },
        }
        proof {
            assert(args_views(r@) =~= self.to_args_spec());
        }
        r
    }
}

impl SyncArgs {
    /// The argument list that reproduces this command: each flag only when
    /// set, the limit with its decimal value.
    pub open spec fn to_args_spec(&self) -> Seq<Seq<char>> {
        let s0: Seq<Seq<char>> = if self.dry_run {
            seq!["--dry-run"@]
        } else {
            Seq::empty()
        };
        let s1: Seq<Seq<char>> = match self.limit {
            Some(k) => s0 + seq!["--limit"@, dec_digits(k as int)],
            None => s0,
        };
        if self.allow_non_vanity_target {
            s1 + seq!["--allow-non-vanity-target"@]
        } else {
            s1
        }
    }

    /// Renders the argument list that reproduces this command.
    pub fn to_args(&self) -> (r: Vec<String>)
        ensures
            args_views(r@) == self.to_args_spec(),
    {
        let mut r: Vec<String> = Vec::new();
        if self.dry_run {
            r.push("--dry-run".to_owned());
        }
        match self.limit {
            Some(k) => {
                r.push("--limit".to_owned());
                r.push(usize_to_string(k));
            },
            None => {},
        }
        if self.allow_non_vanity_target {
            r.push("--allow-non-vanity-target".to_owned());
        }
        proof {
            assert(args_views(r@) =~= self.to_args_spec());
        }
        r
    }
}

impl Command {
    /// The argument list that reproduces this command: its name, then its
    /// own arguments.
    pub open spec fn to_args_spec(&self) -> Seq<Seq<char>> {
        match self {
            Command::ReadRepo(a) => seq!["read-repo"@] + a.to_args_spec(),
            Command::ThisRepo(a) => seq!["this-repo"@] + a.to_args_spec(),
            Command::Sync(a) => seq!["sync"@] + a.to_args_spec(),
        }
    }

    /// Renders the argument list that reproduces this command.
    pub fn to_args(&self) -> (r: Vec<String>)
        ensures
            args_views(r@) == self.to_args_spec(),
    {
        let mut r: Vec<String> = Vec::new();
        match self {
            Command::ReadRepo(a) => {
                r.push("read-repo".to_owned());
                let mut rest = a.to_args();
                let ghost head = args_views(r@);
                let ghost tail = args_views(rest@);
                r.append(&mut rest);
                proof {
                    assert(args_views(r@) =~= head + tail);
                }
            },
            Command::ThisRepo(a) => {
                r.push("this-repo".to_owned());
                let mut rest = a.to_args();
                let ghost head = args_views(r@);
                let ghost tail = args_views(rest@);
                r.append(&mut rest);
                proof {
                    assert(args_views(r@) =~= head + tail);
                }
            },
            Command::Sync(a) => {
                r.push("sync".to_owned());
                let mut rest = a.to_args();
                let ghost head = args_views(r@);
                let ghost tail = args_views(rest@);
                r.append(&mut rest);
                proof {
                    assert(args_views(r@) =~= head + tail);
                }
            },
        }
        proof {
            assert(args_views(r@) =~= self.to_args_spec());
        }
        r
    }
}

} // verus!

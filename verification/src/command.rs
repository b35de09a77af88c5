//! Command lines for the SSH client and what running one reports.

use crate::host::{HostEntry, HostView};
use vstd::prelude::*;
use vstd::string::StringExecFns;

verus! {

/// A program and the arguments to run it with.
#[derive(Debug)]
pub struct CommandLine {
    pub program: String,
    pub args: Vec<String>,
}

/// The mathematical value of a [`CommandLine`].
pub struct CommandView {
    pub program: Seq<char>,
    pub args: Seq<Seq<char>>,
}

impl View for CommandLine {
    type V = CommandView;

    open spec fn view(&self) -> CommandView {
        CommandView { program: self.program@, args: self.args.deep_view() }
    }
}

/// What running a command line gave. `success` and `output` say
/// something only where `started` holds.
#[derive(Debug)]
pub struct ProcessReport {
    /// Whether the program could be started at all.
    pub started: bool,
    /// Whether it ended with exit status zero.
    pub success: bool,
    /// The wall-clock time the run took, in milliseconds.
    pub elapsed_ms: u128,
    /// What it wrote to its standard output, where that was captured and
    /// is valid text.
    pub output: Option<String>,
}

/// Where a session for the host connects to: the host name, with the
/// login name and an `@` before it where the host has one.
pub open spec fn target(host: HostView) -> Seq<char> {
    match host.username {
        Some(name) => name + seq!['@'] + host.hostname,
        None => host.hostname,
    }
}

/// The arguments that select the identity file of the host: the option
/// and the path where the host has one, nothing where it has none.
pub open spec fn identity_args(host: HostView) -> Seq<Seq<char>> {
    match host.identity_file {
        Some(path) => seq!["-i"@, path],
        None => Seq::empty(),
    }
}

/// Builds the target of a session for the host.
pub fn target_of(entry: &HostEntry) -> (t: String)
    ensures
        t@ == target(entry@),
{
    match &entry.username {
        Some(name) => {
            proof {
                reveal_strlit("@");
            }
            let mut t = name.clone();
            t.append("@");
            t.append(entry.hostname.as_str());
            assert(t@ =~= name@ + seq!['@'] + entry.hostname@);
            t
        },
        None => entry.hostname.clone(),
    }
}

/// Appends one argument.
pub fn push_arg(args: &mut Vec<String>, arg: &str)
    ensures
        final(args).deep_view() == old(args).deep_view().push(arg@),
{
    let ghost before = args.deep_view();
    args.push(arg.to_owned());
    assert(args.deep_view() =~= before.push(arg@));
}

/// Appends the arguments that select the identity file of the host.
pub fn push_identity_args(args: &mut Vec<String>, entry: &HostEntry)
    ensures
        final(args).deep_view() == old(args).deep_view() + identity_args(entry@),
{
    let ghost before = args.deep_view();
    match &entry.identity_file {
        Some(path) => {
            push_arg(args, "-i");
            push_arg(args, path.as_str());
            assert(args.deep_view() =~= before + identity_args(entry@));
        },
        None => {
            assert(args.deep_view() =~= before + identity_args(entry@));
        },
    }
}

} // verus!

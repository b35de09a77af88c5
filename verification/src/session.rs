//! Launching the interactive session with the chosen host.

use crate::command::{
    identity_args, push_arg, push_identity_args, target, target_of, CommandLine, CommandView,
    ProcessReport,
};
use crate::host::{HostEntry, HostView};
use vstd::prelude::*;

verus! {

/// Why no session came about.
#[derive(Debug, Clone, Copy, PartialEq, Eq, Structural)]
pub enum LaunchError {
    /// The SSH client could not be started.
    SpawnFailed,
}

/// The command line of an interactive session with the host: the SSH
/// client, the target, and the identity file where the host has one.
pub open spec fn session_command(host: HostView) -> CommandView {
    CommandView { program: "ssh"@, args: seq![target(host)] + identity_args(host) }
}

/// Builds the command line of an interactive session with the host.
pub fn build_session_command(entry: &HostEntry) -> (c: CommandLine)
    ensures
        c@ == session_command(entry@),
{
    let mut args: Vec<String> = Vec::new();
    let t = target_of(entry);
    assert(args.deep_view() =~= Seq::<Seq<char>>::empty());
    push_arg(&mut args, t.as_str());
    push_identity_args(&mut args, entry);
    assert(args.deep_view() =~= seq![target(entry@)] + identity_args(entry@));
    CommandLine { program: "ssh".to_owned(), args }
}

/// How the launch of a session ended: well if the client was started,
/// whatever exit status the session then had; with an error if the
/// client could not be started.
pub fn launch_result(report: &ProcessReport) -> (r: Result<(), LaunchError>)
    ensures
        report.started ==> r == Ok::<(), LaunchError>(()),
        !report.started ==> r == Err::<(), LaunchError>(LaunchError::SpawnFailed),
{
    if report.started {
        Ok(())
    } else {
        Err(LaunchError::SpawnFailed)
    }
}

} // verus!

//! Probing whether a host can be reached, and how fast.

use crate::command::{
    identity_args, push_arg, push_identity_args, target, target_of, CommandLine, CommandView,
    ProcessReport,
};
use crate::decimal::{parse_millis, parse_millis_in};
use crate::host::{HostEntry, HostView};
use crate::text::{
    find, find_in, first_token, lemma_find_from_is_first, lines_of, split_lines, to_chars,
    token_bounds,
};
use vstd::prelude::*;

verus! {

/// How a host is probed.
#[derive(Debug, Clone, Copy, PartialEq, Eq, Structural)]
pub enum ProbeStrategy {
    /// A session handshake in batch mode that runs a command without
    /// effect; the time the run takes is the measurement.
    Handshake,
    /// One echo request; the round-trip time that the tool prints is the
    /// measurement.
    Ping,
}

/// The command line of a handshake probe: the SSH client, quiet, without
/// a terminal, in batch mode, with a connect timeout of three seconds,
/// with public keys only and without password prompts, running `true` on
/// the target; then the identity file where the host has one.
pub open spec fn handshake_command(host: HostView) -> CommandView {
    CommandView {
        program: "ssh"@,
        args: seq![
            "-q"@,
            "-T"@,
            "-o"@,
            "BatchMode=yes"@,
            "-o"@,
            "ConnectTimeout=3"@,
            "-o"@,
            "PreferredAuthentications=publickey"@,
            "-o"@,
            "NumberOfPasswordPrompts=0"@,
            target(host),
            "true"@,
        ] + identity_args(host),
    }
}

/// The command line of an echo probe: one request to the host name.
pub open spec fn ping_command(host: HostView) -> CommandView {
    CommandView { program: "ping"@, args: seq!["-c"@, "1"@, host.hostname] }
}

/// The command line that probes the host.
pub open spec fn probe_command(strategy: ProbeStrategy, host: HostView) -> CommandView {
    match strategy {
        ProbeStrategy::Handshake => handshake_command(host),
        ProbeStrategy::Ping => ping_command(host),
    }
}

/// The text that precedes the round-trip time in the output of the echo
/// tool.
pub open spec fn time_marker() -> Seq<char> {
    "time="@
}

/// The time that a line of output reports: the line holds the marker,
/// and the word after its first occurrence is a measurement.
pub open spec fn line_time(line: Seq<char>) -> Option<u128> {
    match find(line, time_marker()) {
        Some(i) => parse_millis(first_token(line.skip(i + time_marker().len()))),
        None => None,
    }
}

/// The time that the first of the lines with a time reports.
pub open spec fn first_time(lines: Seq<Seq<char>>) -> Option<u128>
    decreases lines.len(),
{
    if lines.len() == 0 {
        None
    } else {
        match line_time(lines[0]) {
            Some(t) => Some(t),
            None => first_time(lines.drop_first()),
        }
    }
}

/// The round-trip time that the output of the echo tool reports.
pub open spec fn ping_time(output: Seq<char>) -> Option<u128> {
    first_time(split_lines(output))
}

/// The measurement that a probe gave: none unless the program ran and
/// ended with success; then the elapsed time of a handshake, or the time
/// that the output of the echo tool reports.
pub open spec fn measured(strategy: ProbeStrategy, report: ProcessReport) -> Option<u128> {
    if !(report.started && report.success) {
        None
    } else {
        match strategy {
            ProbeStrategy::Handshake => Some(report.elapsed_ms),
            ProbeStrategy::Ping => match report.output {
                Some(text) => ping_time(text@),
                None => None,
            },
        }
    }
}

/// A probe of a host that cannot be reached, or whose program cannot be
/// run, gives no measurement.
pub proof fn lemma_unreachable_unmeasured(strategy: ProbeStrategy, report: ProcessReport)
    requires
        !report.started || !report.success,
    ensures
        measured(strategy, report) is None,
{
}

/// Builds the command line of a handshake probe.
pub fn build_handshake_command(entry: &HostEntry) -> (c: CommandLine)
    ensures
        c@ == handshake_command(entry@),
{
    let mut args: Vec<String> = Vec::new();
    let t = target_of(entry);
    assert(args.deep_view() =~= Seq::<Seq<char>>::empty());
    push_arg(&mut args, "-q");
    push_arg(&mut args, "-T");
    push_arg(&mut args, "-o");
    push_arg(&mut args, "BatchMode=yes");
    push_arg(&mut args, "-o");
    push_arg(&mut args, "ConnectTimeout=3");
    push_arg(&mut args, "-o");
    push_arg(&mut args, "PreferredAuthentications=publickey");
    push_arg(&mut args, "-o");
    push_arg(&mut args, "NumberOfPasswordPrompts=0");
    push_arg(&mut args, t.as_str());
    push_arg(&mut args, "true");
    let ghost fixed = args.deep_view();
    push_identity_args(&mut args, entry);
    assert(fixed =~= handshake_command(entry@).args.take(12));
    assert(args.deep_view() =~= handshake_command(entry@).args);
    CommandLine { program: "ssh".to_owned(), args }
}

/// Builds the command line of an echo probe.
pub fn build_ping_command(entry: &HostEntry) -> (c: CommandLine)
    ensures
        c@ == ping_command(entry@),
{
    let mut args: Vec<String> = Vec::new();
    assert(args.deep_view() =~= Seq::<Seq<char>>::empty());
    push_arg(&mut args, "-c");
    push_arg(&mut args, "1");
    push_arg(&mut args, entry.hostname.as_str());
    assert(args.deep_view() =~= ping_command(entry@).args);
    CommandLine { program: "ping".to_owned(), args }
}

/// Builds the command line that probes the host.
pub fn build_probe_command(strategy: ProbeStrategy, entry: &HostEntry) -> (c: CommandLine)
    ensures
        c@ == probe_command(strategy, entry@),
{
    match strategy {
        ProbeStrategy::Handshake => build_handshake_command(entry),
        ProbeStrategy::Ping => build_ping_command(entry),
    }
}

/// Reads the time that a line of output reports.
pub fn read_line_time(line: &str) -> (r: Option<u128>)
    ensures
        r == line_time(line@),
{
    let chars = to_chars(line);
    let marker = to_chars("time=");
    match find_in(&chars, &marker) {
        Some(i) => {
            proof {
                lemma_find_from_is_first(chars@, marker@, 0);
            }
            let (from, to) = token_bounds(&chars, i + marker.len());
            parse_millis_in(&chars, from, to)
        },
        None => None,
    }
}

/// Reads the round-trip time that the output of the echo tool reports.
pub fn read_ping_time(output: &str) -> (r: Option<u128>)
    ensures
        r == ping_time(output@),
{
    let lines = lines_of(output);
    let n = lines.len();
    let ghost all = lines.deep_view();
    let mut k: usize = 0;
    proof {
        assert(all.skip(0) =~= all);
    }
    while k < n
        invariant
            k <= n,
            n == lines.len(),
            all == lines.deep_view(),
            all == split_lines(output@),
            first_time(all) == first_time(all.skip(k as int)),
        decreases n - k,
    {
        proof {
            assert(all.skip(k as int)[0] == lines@[k as int]@);
            assert(all.skip(k as int).drop_first() =~= all.skip(k + 1));
        }
        match read_line_time(lines[k].as_str()) {
            Some(t) => {
                return Some(t);
            },
            None => {},
        }
        k += 1;
    }
    None
}

/// The measurement that a probe gave.
pub fn probe_latency(strategy: ProbeStrategy, report: &ProcessReport) -> (r: Option<u128>)
    ensures
        r == measured(strategy, *report),
{
    if !(report.started && report.success) {
        return None;
    }
    match strategy {
        ProbeStrategy::Handshake => Some(report.elapsed_ms),
        ProbeStrategy::Ping => match &report.output {
            Some(text) => read_ping_time(text.as_str()),
            None => None,
        },
    }
}

} // verus!

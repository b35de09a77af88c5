//! Reading a client configuration line by line into a registry of hosts.

use crate::directive::{classify, classify_line, Directive, DirectiveView};
use crate::host::{fresh_host, HostView};
use crate::registry::{
    lemma_to_map_lookup, with_hostname, with_identity_file, with_username, HostRegistry,
};
use crate::text::{lines_of, split_lines};
use vstd::prelude::*;

verus! {

/// What has been read so far: the hosts by alias, and the alias of the
/// block that the next directive belongs to.
pub struct ParseState {
    pub hosts: Map<Seq<char>, HostView>,
    pub current: Option<Seq<char>>,
}

/// Before the first line nothing is known and no block is open.
pub open spec fn initial_state() -> ParseState {
    ParseState { hosts: Map::empty(), current: None }
}

/// The host that the next directive belongs to, if a block is open and
/// its host is known.
pub open spec fn current_host(state: ParseState) -> Option<HostView> {
    match state.current {
        Some(alias) => if state.hosts.dom().contains(alias) {
            Some(state.hosts[alias])
        } else {
            None
        },
        None => None,
    }
}

/// `state` with `host` in place of the host of the same alias.
pub open spec fn amend(state: ParseState, host: HostView) -> ParseState {
    ParseState { hosts: state.hosts.insert(host.alias, host), current: state.current }
}

/// The effect of one directive. A host line opens a block with a host
/// that has no settings, in place of any host of that alias. The other
/// directives change the host of the open block, and nothing where no
/// block is open.
pub open spec fn apply(state: ParseState, d: DirectiveView) -> ParseState {
    match d {
        DirectiveView::Host(alias) => ParseState {
            hosts: state.hosts.insert(alias, fresh_host(alias)),
            current: Some(alias),
        },
        DirectiveView::Hostname(name) => match current_host(state) {
            Some(host) => amend(state, with_hostname(host, name)),
            None => state,
        },
        DirectiveView::User(name) => match current_host(state) {
            Some(host) => amend(state, with_username(host, name)),
            None => state,
        },
        DirectiveView::IdentityFile(path) => match current_host(state) {
            Some(host) => amend(state, with_identity_file(host, path)),
            None => state,
        },
        DirectiveView::Ignored => state,
    }
}

/// The effect of one line.
pub open spec fn feed(state: ParseState, line: Seq<char>) -> ParseState {
    apply(state, classify(line))
}

/// The effect of the lines, the first one first.
pub open spec fn run(state: ParseState, lines: Seq<Seq<char>>) -> ParseState
    decreases lines.len(),
{
    if lines.len() == 0 {
        state
    } else {
        feed(run(state, lines.drop_last()), lines.last())
    }
}

/// What a configuration with these lines holds.
pub open spec fn parse_lines(lines: Seq<Seq<char>>) -> ParseState {
    run(initial_state(), lines)
}

/// The hosts of a configuration with this text.
pub open spec fn parse_text(text: Seq<char>) -> Map<Seq<char>, HostView> {
    parse_lines(split_lines(text)).hosts
}

/// A reader of configuration lines. It is fed the lines in order and
/// then hands out the registry.
#[derive(Debug)]
pub struct ConfigParser {
    registry: HostRegistry,
    current: Option<usize>,
}

impl ConfigParser {
    /// The open block is one of the hosts of a well-formed registry.
    pub closed spec fn wf(&self) -> bool {
        &&& self.registry.wf()
        &&& self.current matches Some(i) ==> i < self.registry.hosts().len()
    }

    /// What has been read so far.
    pub closed spec fn state(&self) -> ParseState {
        ParseState {
            hosts: self.registry@,
            current: match self.current {
                Some(i) => Some(self.registry.hosts()[i as int].alias),
                None => None,
            },
        }
    }

    /// A reader that has read nothing.
    pub fn new() -> (p: ConfigParser)
        ensures
            p.wf(),
            p.state() == initial_state(),
    {
        ConfigParser { registry: HostRegistry::new(), current: None }
    }

    /// Takes in the next line of the configuration.
    pub fn feed_line(&mut self, line: &str)
        requires
            old(self).wf(),
        ensures
            final(self).wf(),
            final(self).state() == feed(old(self).state(), line@),
    {
        let ghost before = self.registry.hosts();
        proof {
            if let Some(i) = self.current {
                lemma_to_map_lookup(before, i as int);
            }
        }
        match classify_line(line) {
            Directive::Host(alias) => {
                let i = self.registry.declare(alias);
                self.current = Some(i);
            },
            Directive::Hostname(name) => {
                if let Some(i) = self.current {
                    self.registry.set_hostname(i, name);
                }
            },
            Directive::User(name) => {
                if let Some(i) = self.current {
                    self.registry.set_username(i, name);
                }
            },
            Directive::IdentityFile(path) => {
                if let Some(i) = self.current {
                    self.registry.set_identity_file(i, path);
                }
            },
            Directive::Ignored => {},
        }
    }

    /// The hosts that the lines have given.
    pub fn finish(self) -> (r: HostRegistry)
        requires
            self.wf(),
        ensures
            r.wf(),
            r@ == self.state().hosts,
    {
        self.registry
    }
}

/// Reads a configuration that is given by its lines.
pub fn parse_config_lines(lines: &Vec<String>) -> (r: HostRegistry)
    ensures
        r.wf(),
        r@ == parse_lines(lines.deep_view()).hosts,
{
    let mut parser = ConfigParser::new();
    let n = lines.len();
    let mut i: usize = 0;
    proof {
        assert(lines.deep_view().take(0) =~= Seq::<Seq<char>>::empty());
    }
    while i < n
        invariant
            i <= n,
            n == lines.len(),
            parser.wf(),
            parser.state() == parse_lines(lines.deep_view().take(i as int)),
        decreases n - i,
    {
        proof {
            let all = lines.deep_view();
            assert(all.take(i + 1).drop_last() =~= all.take(i as int));
            assert(all.take(i + 1).last() == lines@[i as int]@);
        }
        parser.feed_line(lines[i].as_str());
        i += 1;
    }
    proof {
        assert(lines.deep_view().take(n as int) =~= lines.deep_view());
    }
    parser.finish()
}

/// Reads a configuration that is given as one text.
pub fn parse_ssh_config(text: &str) -> (r: HostRegistry)
    ensures
        r.wf(),
        r@ == parse_text(text@),
{
    let lines = lines_of(text);
    parse_config_lines(&lines)
}

} // verus!

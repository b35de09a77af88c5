//! The selection loop: what is shown, what is probed and when the loop
//! ends, as a function of what the user and the probes answer.

use crate::host::{HostEntry, HostView};
use crate::menu::{build_menu, menu, Choice, MenuItem};
use crate::registry::{with_latency, HostRegistry};
use vstd::prelude::*;

verus! {

/// Where the selection loop stands, which is also what is to be done
/// next.
#[derive(Debug, Clone, Copy, PartialEq, Eq, Structural)]
pub enum Phase {
    /// The menu is to be shown, and the user's answer awaited.
    Displaying,
    /// The host at this position is to be probed.
    Probing(usize),
    /// The user picked the host at this position: the loop is over.
    Selected(usize),
    /// The user picked no host: the loop is over.
    Cancelled,
    /// There is no host to pick: the loop never began.
    NoHosts,
}

/// What happened outside.
#[derive(Debug, Clone, Copy, PartialEq, Eq, Structural)]
pub enum Event {
    /// The user picked an item of the menu.
    Picked(Choice),
    /// The interaction failed, or the user left the menu.
    Aborted,
    /// The probe that was asked for gave this measurement, or none.
    Probed(Option<u128>),
}

/// The mathematical value of a [`Selector`].
pub struct SelectorView {
    pub hosts: Seq<HostView>,
    pub phase: Phase,
}

/// Whether the loop is over.
pub open spec fn is_final(phase: Phase) -> bool {
    phase is Selected || phase is Cancelled || phase is NoHosts
}

/// The positions that a phase names are positions of hosts, the loop
/// has not begun exactly where there are no hosts, and a position can
/// be held in a machine word.
pub open spec fn valid(s: SelectorView) -> bool {
    &&& s.hosts.len() <= usize::MAX
    &&& s.phase matches Phase::Probing(i) ==> i < s.hosts.len()
    &&& s.phase matches Phase::Selected(i) ==> i < s.hosts.len()
    &&& s.phase is NoHosts <==> s.hosts.len() == 0
}

/// Where the loop begins: at the menu, or nowhere if there are no hosts.
pub open spec fn initial(hosts: Seq<HostView>) -> SelectorView {
    SelectorView {
        hosts,
        phase: if hosts.len() == 0 {
            Phase::NoHosts
        } else {
            Phase::Displaying
        },
    }
}

/// The phase after the host at position `i` has been probed: the next
/// host is due, or after the last one the menu again.
pub open spec fn after_probe(i: usize, n: nat) -> Phase {
    if i + 1 < n {
        Phase::Probing((i + 1) as usize)
    } else {
        Phase::Displaying
    }
}

/// One step of the loop. At the menu, the refresh item starts a round
/// of probes, a host ends the loop with that host, and a choice that is
/// not on the menu or a failed interaction ends it without one. During
/// a round, the outcome of a probe is recorded for its host, in place of
/// what was recorded before. Whatever else happens changes nothing.
pub open spec fn step(s: SelectorView, event: Event) -> SelectorView {
    match s.phase {
        Phase::Displaying => match event {
            Event::Picked(Choice::Refresh) => if s.hosts.len() == 0 {
                s
            } else {
                SelectorView { phase: Phase::Probing(0), ..s }
            },
            Event::Picked(Choice::Host(i)) => if i < s.hosts.len() {
                SelectorView { phase: Phase::Selected(i), ..s }
            } else {
                SelectorView { phase: Phase::Cancelled, ..s }
            },
            Event::Aborted => SelectorView { phase: Phase::Cancelled, ..s },
            Event::Probed(_) => s,
        },
        Phase::Probing(i) => match event {
            Event::Probed(latency) => if i < s.hosts.len() {
                SelectorView {
                    hosts: s.hosts.update(i as int, with_latency(s.hosts[i as int], latency)),
                    phase: after_probe(i, s.hosts.len()),
                }
            } else {
                s
            },
            _ => s,
        },
        _ => s,
    }
}

/// The steps for a sequence of events, the first one first.
pub open spec fn steps(s: SelectorView, events: Seq<Event>) -> SelectorView
    decreases events.len(),
{
    if events.len() == 0 {
        s
    } else {
        step(steps(s, events.drop_last()), events.last())
    }
}

/// The events of a round of probes with these outcomes.
pub open spec fn probe_events(latencies: Seq<Option<u128>>) -> Seq<Event> {
    Seq::new(latencies.len(), |i: int| Event::Probed(latencies[i]))
}

/// The hosts after the first `k` of them have been probed with these
/// outcomes.
pub open spec fn probed_hosts(
    hosts: Seq<HostView>,
    latencies: Seq<Option<u128>>,
    k: int,
) -> Seq<HostView> {
    Seq::new(
        hosts.len(),
        |i: int|
            if i < k && i < latencies.len() {
                with_latency(hosts[i], latencies[i])
            } else {
                hosts[i]
            },
    )
}

/// A step leads from a valid state to a valid state and keeps the
/// number of hosts and their order.
pub proof fn lemma_step_valid(s: SelectorView, event: Event)
    requires
        valid(s),
    ensures
        valid(step(s, event)),
        step(s, event).hosts.len() == s.hosts.len(),
        forall|i: int|
            0 <= i < s.hosts.len() ==> (#[trigger] step(s, event).hosts[i]).alias
                == s.hosts[i].alias,
{
}

/// Picking a host at the menu ends the loop with that host.
pub proof fn lemma_pick_host_selects(s: SelectorView, i: usize)
    requires
        valid(s),
        s.phase == Phase::Displaying,
        i < s.hosts.len(),
    ensures
        step(s, Event::Picked(Choice::Host(i))) == (SelectorView { phase: Phase::Selected(i), ..s }),
        is_final(step(s, Event::Picked(Choice::Host(i))).phase),
{
}

/// After the refresh item and the outcomes of any number of probes: the
/// hosts probed so far hold their outcomes, the others are as before,
/// and the loop either probes the next host or is back at the menu.
pub proof fn lemma_refresh_progress(s: SelectorView, latencies: Seq<Option<u128>>)
    requires
        valid(s),
        s.phase == Phase::Displaying,
    ensures
        ({
            let after = steps(step(s, Event::Picked(Choice::Refresh)), probe_events(latencies));
            &&& after.hosts == probed_hosts(s.hosts, latencies, s.hosts.len() as int)
            &&& after.phase == if latencies.len() < s.hosts.len() {
                Phase::Probing(latencies.len() as usize)
            } else {
                Phase::Displaying
            }
        }),
    decreases latencies.len(),
{
    let start = step(s, Event::Picked(Choice::Refresh));
    let events = probe_events(latencies);
    let n = s.hosts.len() as int;
    if latencies.len() == 0 {
        assert(steps(start, events) == start);
        assert(start.hosts =~= probed_hosts(s.hosts, latencies, n));
    } else {
        let fewer = latencies.drop_last();
        lemma_refresh_progress(s, fewer);
        assert(events.drop_last() =~= probe_events(fewer));
        assert(events.last() == Event::Probed(latencies.last()));
        let before = steps(start, probe_events(fewer));
        let after = step(before, events.last());
        assert(steps(start, events) == after);
        let m = fewer.len() as int;
        assert forall|i: int| 0 <= i < n implies after.hosts[i] == probed_hosts(
            s.hosts,
            latencies,
            n,
        )[i] by {
            if i < m {
                assert(fewer[i] == latencies[i]);
            }
        }
        assert(after.hosts =~= probed_hosts(s.hosts, latencies, n));
    }
}

/// The refresh item never ends the loop, whatever the probes answer and
/// however many of them do.
pub proof fn lemma_refresh_never_ends(s: SelectorView, latencies: Seq<Option<u128>>)
    requires
        valid(s),
        s.phase == Phase::Displaying,
    ensures
        !is_final(steps(step(s, Event::Picked(Choice::Refresh)), probe_events(latencies)).phase),
{
    lemma_refresh_progress(s, latencies);
}

/// A full round of probes leads back to the menu, and each host then
/// holds the outcome of its own probe.
pub proof fn lemma_refresh_measures_all(s: SelectorView, latencies: Seq<Option<u128>>)
    requires
        valid(s),
        s.phase == Phase::Displaying,
        latencies.len() == s.hosts.len(),
    ensures
        ({
            let after = steps(step(s, Event::Picked(Choice::Refresh)), probe_events(latencies));
            &&& after.phase == Phase::Displaying
            &&& after.hosts.len() == s.hosts.len()
            &&& forall|i: int|
                0 <= i < s.hosts.len() ==> #[trigger] after.hosts[i] == with_latency(
                    s.hosts[i],
                    latencies[i],
                )
        }),
{
    lemma_refresh_progress(s, latencies);
}

/// A later outcome replaces an earlier one, a failure included: what a
/// probe gave before has no part in what is recorded.
pub proof fn lemma_probe_overrides(host: HostView, first: Option<u128>, second: Option<u128>)
    ensures
        with_latency(with_latency(host, first), second) == with_latency(host, second),
        with_latency(host, second).latency == second,
{
}

/// A second round of probes decides alone what the hosts hold: the
/// outcomes of the first round are gone.
pub proof fn lemma_second_round_decides(
    s: SelectorView,
    first: Seq<Option<u128>>,
    second: Seq<Option<u128>>,
)
    requires
        valid(s),
        s.phase == Phase::Displaying,
        first.len() == s.hosts.len(),
        second.len() == s.hosts.len(),
    ensures
        ({
            let refresh = Event::Picked(Choice::Refresh);
            let once = steps(step(s, refresh), probe_events(first));
            let twice = steps(step(once, refresh), probe_events(second));
            twice == steps(step(s, refresh), probe_events(second))
        }),
{
    let refresh = Event::Picked(Choice::Refresh);
    lemma_refresh_measures_all(s, first);
    let once = steps(step(s, refresh), probe_events(first));
    lemma_refresh_measures_all(once, second);
    lemma_refresh_measures_all(s, second);
    let twice = steps(step(once, refresh), probe_events(second));
    let direct = steps(step(s, refresh), probe_events(second));
    assert(twice.hosts =~= direct.hosts);
}

/// The selection loop over the hosts of a registry.
#[derive(Debug)]
pub struct Selector {
    registry: HostRegistry,
    phase: Phase,
}

impl View for Selector {
    type V = SelectorView;

    closed spec fn view(&self) -> SelectorView {
        SelectorView { hosts: self.registry.hosts(), phase: self.phase }
    }
}

impl Selector {
    /// The registry is well formed and the state is valid.
    pub closed spec fn wf(&self) -> bool {
        self.registry.wf() && valid(self@)
    }

    /// Begins the loop over the hosts of the registry.
    pub fn new(registry: HostRegistry) -> (s: Selector)
        requires
            registry.wf(),
        ensures
            s.wf(),
            s@ == initial(registry.hosts()),
    {
        let n = registry.len();
        let phase = if n == 0 {
            Phase::NoHosts
        } else {
            Phase::Displaying
        };
        Selector { registry, phase }
    }

    /// Where the loop stands.
    pub fn phase(&self) -> (p: Phase)
        ensures
            p == self@.phase,
    {
        self.phase
    }

    /// The hosts, with the measurements recorded so far.
    pub fn registry(&self) -> (r: &HostRegistry)
        requires
            self.wf(),
        ensures
            r.wf(),
            r.hosts() == self@.hosts,
    {
        &self.registry
    }

    /// The menu to show.
    pub fn menu(&self) -> (items: Vec<MenuItem>)
        requires
            self.wf(),
        ensures
            items.deep_view() == menu(self@.hosts),
    {
        build_menu(&self.registry)
    }

    /// The host to probe, while a round of probes is under way.
    pub fn probe_target(&self) -> (r: Option<&HostEntry>)
        requires
            self.wf(),
        ensures
            match self@.phase {
                Phase::Probing(i) => r matches Some(e) && e@ == self@.hosts[i as int],
                _ => r is None,
            },
    {
        match self.phase {
            Phase::Probing(i) => Some(self.registry.at(i)),
            _ => None,
        }
    }

    /// The host that the user picked, once the loop has ended with one.
    pub fn selected(&self) -> (r: Option<&HostEntry>)
        requires
            self.wf(),
        ensures
            match self@.phase {
                Phase::Selected(i) => r matches Some(e) && e@ == self@.hosts[i as int],
                _ => r is None,
            },
    {
        match self.phase {
            Phase::Selected(i) => Some(self.registry.at(i)),
            _ => None,
        }
    }

    /// Takes in what happened outside and moves the loop on.
    pub fn advance(&mut self, event: Event)
        requires
            old(self).wf(),
        ensures
            final(self).wf(),
            final(self)@ == step(old(self)@, event),
    {
        proof {
            lemma_step_valid(self@, event);
        }
        match self.phase {
            Phase::Displaying => match event {
                Event::Picked(Choice::Refresh) => {
                    self.phase = Phase::Probing(0);
                },
                Event::Picked(Choice::Host(i)) => {
                    if i < self.registry.len() {
                        self.phase = Phase::Selected(i);
                    } else {
                        self.phase = Phase::Cancelled;
                    }
                },
                Event::Aborted => {
                    self.phase = Phase::Cancelled;
                },
                Event::Probed(_) => {},
            },
            Phase::Probing(i) => match event {
                Event::Probed(latency) => {
                    let n = self.registry.len();
                    self.registry.set_latency(i, latency);
                    if i + 1 < n {
                        self.phase = Phase::Probing(i + 1);
                    } else {
                        self.phase = Phase::Displaying;
                    }
                },
                _ => {},
            },
            _ => {},
        }
    }

    /// Ends the loop and hands the hosts back.
    pub fn into_registry(self) -> (r: HostRegistry)
        requires
            self.wf(),
        ensures
            r.wf(),
            r.hosts() == self@.hosts,
    {
        self.registry
    }
}

} // verus!

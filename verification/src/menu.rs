//! The menu from which the user picks a host.

use crate::decimal::{decimal, decimal_string};
use crate::host::{HostEntry, HostView};
use crate::registry::HostRegistry;
use vstd::prelude::*;
use vstd::string::StringExecFns;

verus! {

/// What an item of the menu stands for.
#[derive(Debug, Clone, Copy, PartialEq, Eq, Structural)]
pub enum Choice {
    /// Probe every host and show the menu again.
    Refresh,
    /// The host at this position of the display order.
    Host(usize),
}

/// One line of the menu.
#[derive(Debug)]
pub struct MenuItem {
    pub choice: Choice,
    pub label: String,
    pub hint: String,
}

/// The mathematical value of a [`MenuItem`].
pub struct MenuItemView {
    pub choice: Choice,
    pub label: Seq<char>,
    pub hint: Seq<char>,
}

impl View for MenuItem {
    type V = MenuItemView;

    open spec fn view(&self) -> MenuItemView {
        MenuItemView { choice: self.choice, label: self.label@, hint: self.hint@ }
    }
}

impl DeepView for MenuItem {
    type V = MenuItemView;

    open spec fn deep_view(&self) -> MenuItemView {
        self@
    }
}

/// How a measurement is shown: the milliseconds and the unit; nothing
/// where there is no measurement.
pub open spec fn latency_note(latency: Option<u128>) -> Seq<char> {
    match latency {
        Some(ms) => decimal(ms as nat) + " ms"@,
        None => Seq::empty(),
    }
}

/// The label of a host: its position in round brackets, its alias, a
/// dash, and its measurement where it has one.
pub open spec fn host_label(index: nat, host: HostView) -> Seq<char> {
    "("@ + decimal(index) + ") "@ + host.alias + " - "@ + latency_note(host.latency)
}

/// The hint of a host: its login name where it has one.
pub open spec fn host_hint(host: HostView) -> Seq<char> {
    match host.username {
        Some(name) => "User: "@ + name,
        None => Seq::empty(),
    }
}

/// The item of the host at position `index`.
pub open spec fn host_item(index: nat, host: HostView) -> MenuItemView {
    MenuItemView {
        choice: Choice::Host(index as usize),
        label: host_label(index, host),
        hint: host_hint(host),
    }
}

/// The item that asks for the latencies.
pub open spec fn refresh_item() -> MenuItemView {
    MenuItemView { choice: Choice::Refresh, label: "📡 Get latencies"@, hint: Seq::empty() }
}

/// The menu for the hosts: the item that asks for the latencies, then
/// one item for each host, in the order of the hosts.
pub open spec fn menu(hosts: Seq<HostView>) -> Seq<MenuItemView> {
    seq![refresh_item()] + Seq::new(hosts.len(), |i: int| host_item(i as nat, hosts[i]))
}

/// Writes the note of a measurement.
pub fn latency_note_of(latency: Option<u128>) -> (r: String)
    ensures
        r@ == latency_note(latency),
{
    match latency {
        Some(ms) => {
            let mut r = decimal_string(ms);
            r.append(" ms");
            r
        },
        None => String::new(),
    }
}

/// Writes the label of the host at position `index`.
pub fn host_label_of(index: usize, entry: &HostEntry) -> (r: String)
    ensures
        r@ == host_label(index as nat, entry@),
{
    let mut r = "(".to_owned();
    let number = decimal_string(index as u128);
    let note = latency_note_of(entry.latency);
    r.append(number.as_str());
    r.append(") ");
    r.append(entry.alias.as_str());
    r.append(" - ");
    r.append(note.as_str());
    r
}

/// Writes the hint of a host.
pub fn host_hint_of(entry: &HostEntry) -> (r: String)
    ensures
        r@ == host_hint(entry@),
{
    match &entry.username {
        Some(name) => {
            let mut r = "User: ".to_owned();
            r.append(name.as_str());
            r
        },
        None => String::new(),
    }
}

/// Builds the menu for the hosts of the registry.
pub fn build_menu(registry: &HostRegistry) -> (items: Vec<MenuItem>)
    requires
        registry.wf(),
    ensures
        items.deep_view() == menu(registry.hosts()),
{
    let mut items: Vec<MenuItem> = Vec::new();
    items.push(
        MenuItem {
            choice: Choice::Refresh,
            label: "📡 Get latencies".to_owned(),
            hint: String::new(),
        },
    );
    let n = registry.len();
    let mut i: usize = 0;
    while i < n
        invariant
            i <= n,
            n == registry.hosts().len(),
            items.len() == i + 1,
            items@[0]@ == refresh_item(),
            forall|k: int|
                0 <= k < i ==> (#[trigger] items@[k + 1])@ == host_item(
                    k as nat,
                    registry.hosts()[k],
                ),
        decreases n - i,
    {
        let entry = registry.at(i);
        let item = MenuItem {
            choice: Choice::Host(i),
            label: host_label_of(i, entry),
            hint: host_hint_of(entry),
        };
        items.push(item);
        i += 1;
    }
    proof {
        let want = menu(registry.hosts());
        assert(items.deep_view().len() == want.len());
        assert forall|k: int| 0 <= k < want.len() implies items.deep_view()[k] == want[k] by {
            if k > 0 {
                assert(items@[(k - 1) + 1]@ == host_item((k - 1) as nat, registry.hosts()[k - 1]));
            }
        }
        assert(items.deep_view() =~= want);
    }
    items
}

} // verus!

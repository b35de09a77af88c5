//! The hosts of a configuration, keyed by alias.

use crate::host::{fresh_host, HostEntry, HostView};
use crate::text::{
    lemma_lex_lt_irreflexive, lemma_lex_lt_total, lemma_lex_lt_transitive, lex_lt, text_less,
};
use vstd::prelude::*;

verus! {

/// The values of a sequence of entries.
pub open spec fn views(entries: Seq<HostEntry>) -> Seq<HostView> {
    entries.map_values(|e: HostEntry| e@)
}

/// Each host comes strictly before every later one in the order of the
/// aliases.
pub open spec fn sorted_by_alias(hosts: Seq<HostView>) -> bool {
    forall|i: int, j: int|
        0 <= i < j < hosts.len() ==> lex_lt((#[trigger] hosts[i]).alias, (#[trigger] hosts[j]).alias)
}

/// No host has an empty alias or an empty host name.
pub open spec fn named(hosts: Seq<HostView>) -> bool {
    forall|i: int|
        0 <= i < hosts.len() ==> (#[trigger] hosts[i]).alias.len() > 0 && hosts[i].hostname.len()
            > 0
}

/// Whether one of the hosts goes by the alias `a`.
pub open spec fn has_alias(hosts: Seq<HostView>, a: Seq<char>) -> bool {
    exists|i: int| 0 <= i < hosts.len() && (#[trigger] hosts[i]).alias == a
}

/// The mapping from alias to host that a sequence of hosts stands for.
pub open spec fn to_map(hosts: Seq<HostView>) -> Map<Seq<char>, HostView>
    decreases hosts.len(),
{
    if hosts.len() == 0 {
        Map::empty()
    } else {
        to_map(hosts.drop_last()).insert(hosts.last().alias, hosts.last())
    }
}

/// `host` with another host name.
pub open spec fn with_hostname(host: HostView, hostname: Seq<char>) -> HostView {
    HostView { hostname, ..host }
}

/// `host` with another login name.
pub open spec fn with_username(host: HostView, username: Seq<char>) -> HostView {
    HostView { username: Some(username), ..host }
}

/// `host` with another identity file.
pub open spec fn with_identity_file(host: HostView, path: Seq<char>) -> HostView {
    HostView { identity_file: Some(path), ..host }
}

/// `host` with another measurement, or with none.
pub open spec fn with_latency(host: HostView, latency: Option<u128>) -> HostView {
    HostView { latency, ..host }
}

/// In a sorted sequence no alias occurs twice.
pub proof fn lemma_sorted_distinct(hosts: Seq<HostView>, i: int, j: int)
    requires
        sorted_by_alias(hosts),
        0 <= i < hosts.len(),
        0 <= j < hosts.len(),
        hosts[i].alias == hosts[j].alias,
    ensures
        i == j,
{
    lemma_lex_lt_irreflexive(hosts[i].alias);
}

/// The mapping knows exactly the aliases of the hosts.
pub proof fn lemma_to_map_domain(hosts: Seq<HostView>)
    ensures
        to_map(hosts).dom().finite(),
        forall|a: Seq<char>| #[trigger] to_map(hosts).dom().contains(a) <==> has_alias(hosts, a),
    decreases hosts.len(),
{
    if hosts.len() > 0 {
        let front = hosts.drop_last();
        lemma_to_map_domain(front);
        assert forall|a: Seq<char>| #[trigger]
            to_map(hosts).dom().contains(a) <==> has_alias(hosts, a) by {
            if to_map(hosts).dom().contains(a) {
                if a == hosts.last().alias {
                    assert(hosts[hosts.len() - 1].alias == a);
                } else {
                    assert(to_map(front).dom().contains(a));
                    let i = choose|i: int| 0 <= i < front.len() && (#[trigger] front[i]).alias == a;
                    assert(hosts[i].alias == a);
                }
            }
            if has_alias(hosts, a) {
                let i = choose|i: int| 0 <= i < hosts.len() && (#[trigger] hosts[i]).alias == a;
                if i < hosts.len() - 1 {
                    assert(front[i].alias == a);
                    assert(has_alias(front, a));
                }
            }
        }
    }
}

/// Under each alias of a sorted sequence the mapping holds the host
/// with that alias.
pub proof fn lemma_to_map_lookup(hosts: Seq<HostView>, i: int)
    requires
        sorted_by_alias(hosts),
        0 <= i < hosts.len(),
    ensures
        to_map(hosts).dom().contains(hosts[i].alias),
        to_map(hosts)[hosts[i].alias] == hosts[i],
    decreases hosts.len(),
{
    let front = hosts.drop_last();
    if i < hosts.len() - 1 {
        assert forall|x: int, y: int| 0 <= x < y < front.len() implies lex_lt(
            (#[trigger] front[x]).alias,
            (#[trigger] front[y]).alias,
        ) by {
            assert(front[x] == hosts[x] && front[y] == hosts[y]);
        }
        lemma_to_map_lookup(front, i);
        assert(front[i] == hosts[i]);
        if hosts[i].alias == hosts.last().alias {
            lemma_sorted_distinct(hosts, i, hosts.len() - 1);
        }
    }
}

/// A sorted sequence of hosts and its mapping have the same size.
pub proof fn lemma_to_map_len(hosts: Seq<HostView>)
    requires
        sorted_by_alias(hosts),
    ensures
        to_map(hosts).dom().finite(),
        to_map(hosts).dom().len() == hosts.len(),
    decreases hosts.len(),
{
    lemma_to_map_domain(hosts);
    if hosts.len() > 0 {
        let front = hosts.drop_last();
        assert forall|x: int, y: int| 0 <= x < y < front.len() implies lex_lt(
            (#[trigger] front[x]).alias,
            (#[trigger] front[y]).alias,
        ) by {
            assert(front[x] == hosts[x] && front[y] == hosts[y]);
        }
        lemma_to_map_len(front);
        lemma_to_map_domain(front);
        if has_alias(front, hosts.last().alias) {
            let i = choose|i: int|
                0 <= i < front.len() && (#[trigger] front[i]).alias == hosts.last().alias;
            assert(front[i] == hosts[i]);
            lemma_sorted_distinct(hosts, i, hosts.len() - 1);
        }
        assert(!to_map(front).dom().contains(hosts.last().alias));
    }
}

/// Putting a host with a new alias at its place in a sorted sequence
/// keeps the sequence sorted and adds the host to the mapping.
pub proof fn lemma_to_map_insert(hosts: Seq<HostView>, i: int, host: HostView)
    requires
        sorted_by_alias(hosts),
        0 <= i <= hosts.len(),
        forall|k: int| 0 <= k < i ==> lex_lt((#[trigger] hosts[k]).alias, host.alias),
        forall|k: int| i <= k < hosts.len() ==> lex_lt(host.alias, (#[trigger] hosts[k]).alias),
    ensures
        sorted_by_alias(hosts.insert(i, host)),
        to_map(hosts.insert(i, host)) == to_map(hosts).insert(host.alias, host),
{
    let grown = hosts.insert(i, host);
    assert forall|x: int, y: int| 0 <= x < y < grown.len() implies lex_lt(
        (#[trigger] grown[x]).alias,
        (#[trigger] grown[y]).alias,
    ) by {
        if x < i {
            assert(grown[x] == hosts[x]);
        } else if x > i {
            assert(grown[x] == hosts[x - 1]);
        }
        if y < i {
            assert(grown[y] == hosts[y]);
        } else if y > i {
            assert(grown[y] == hosts[y - 1]);
        }
    }
    lemma_to_map_domain(hosts);
    lemma_to_map_domain(grown);
    let left = to_map(grown);
    let right = to_map(hosts).insert(host.alias, host);
    assert forall|a: Seq<char>| left.dom().contains(a) <==> right.dom().contains(a) by {
        if has_alias(grown, a) {
            let x = choose|x: int| 0 <= x < grown.len() && (#[trigger] grown[x]).alias == a;
            if x < i {
                assert(hosts[x].alias == a);
            } else if x > i {
                assert(hosts[x - 1].alias == a);
            }
        }
        if has_alias(hosts, a) {
            let x = choose|x: int| 0 <= x < hosts.len() && (#[trigger] hosts[x]).alias == a;
            if x < i {
                assert(grown[x].alias == a);
            } else {
                assert(grown[x + 1].alias == a);
            }
        }
        if a == host.alias {
            assert(grown[i].alias == a);
        }
    }
    assert forall|a: Seq<char>| left.dom().contains(a) implies left[a] == right[a] by {
        let x = choose|x: int| 0 <= x < grown.len() && (#[trigger] grown[x]).alias == a;
        lemma_to_map_lookup(grown, x);
        if x < i {
            assert(grown[x] == hosts[x]);
            lemma_to_map_lookup(hosts, x);
            lemma_lex_lt_irreflexive(a);
        } else if x > i {
            assert(grown[x] == hosts[x - 1]);
            lemma_to_map_lookup(hosts, x - 1);
            lemma_lex_lt_irreflexive(a);
        }
    }
    assert(left =~= right);
}

/// Replacing a host of a sorted sequence by one with the same alias
/// keeps the sequence sorted and replaces the host in the mapping.
pub proof fn lemma_to_map_update(hosts: Seq<HostView>, i: int, host: HostView)
    requires
        sorted_by_alias(hosts),
        0 <= i < hosts.len(),
        hosts[i].alias == host.alias,
    ensures
        sorted_by_alias(hosts.update(i, host)),
        to_map(hosts.update(i, host)) == to_map(hosts).insert(host.alias, host),
{
    let changed = hosts.update(i, host);
    assert forall|x: int, y: int| 0 <= x < y < changed.len() implies lex_lt(
        (#[trigger] changed[x]).alias,
        (#[trigger] changed[y]).alias,
    ) by {
        assert(changed[x].alias == hosts[x].alias);
        assert(changed[y].alias == hosts[y].alias);
    }
    lemma_to_map_domain(hosts);
    lemma_to_map_domain(changed);
    let left = to_map(changed);
    let right = to_map(hosts).insert(host.alias, host);
    assert forall|a: Seq<char>| left.dom().contains(a) <==> right.dom().contains(a) by {
        if has_alias(changed, a) {
            let x = choose|x: int| 0 <= x < changed.len() && (#[trigger] changed[x]).alias == a;
            assert(hosts[x].alias == a);
        }
        if has_alias(hosts, a) {
            let x = choose|x: int| 0 <= x < hosts.len() && (#[trigger] hosts[x]).alias == a;
            assert(changed[x].alias == a);
        }
        if a == host.alias {
            assert(changed[i].alias == a);
        }
    }
    assert forall|a: Seq<char>| left.dom().contains(a) implies left[a] == right[a] by {
        let x = choose|x: int| 0 <= x < changed.len() && (#[trigger] changed[x]).alias == a;
        lemma_to_map_lookup(changed, x);
        if x != i {
            assert(changed[x] == hosts[x]);
            lemma_to_map_lookup(hosts, x);
            if a == host.alias {
                lemma_sorted_distinct(hosts, x, i);
            }
        }
    }
    assert(left =~= right);
}

/// The hosts of a configuration. No two of them share an alias, and
/// they are kept in the order of their aliases.
#[derive(Debug)]
pub struct HostRegistry {
    entries: Vec<HostEntry>,
}

impl View for HostRegistry {
    type V = Map<Seq<char>, HostView>;

    /// The mapping from alias to host.
    open spec fn view(&self) -> Map<Seq<char>, HostView> {
        to_map(self.hosts())
    }
}

impl HostRegistry {
    /// The hosts in the order in which they are displayed.
    pub closed spec fn hosts(&self) -> Seq<HostView> {
        views(self.entries@)
    }

    /// The hosts are sorted by alias, and each has an alias and a host
    /// name.
    pub open spec fn wf(&self) -> bool {
        sorted_by_alias(self.hosts()) && named(self.hosts())
    }

    /// A registry without hosts.
    pub fn new() -> (r: HostRegistry)
        ensures
            r.wf(),
            r.hosts() == Seq::<HostView>::empty(),
            r@ == Map::<Seq<char>, HostView>::empty(),
    {
        let r = HostRegistry { entries: Vec::new() };
        assert(views(r.entries@) =~= Seq::<HostView>::empty());
        r
    }

    /// The number of hosts.
    pub fn len(&self) -> (n: usize)
        requires
            self.wf(),
        ensures
            n == self.hosts().len(),
            n == self@.dom().len(),
    {
        proof {
            lemma_to_map_len(self.hosts());
        }
        self.entries.len()
    }

    /// Whether there is no host.
    pub fn is_empty(&self) -> (r: bool)
        requires
            self.wf(),
        ensures
            r == (self.hosts().len() == 0),
            r == (self@ == Map::<Seq<char>, HostView>::empty()),
    {
        proof {
            lemma_to_map_len(self.hosts());
            if self@ == Map::<Seq<char>, HostView>::empty() {
                assert(self@.dom() =~= Set::<Seq<char>>::empty());
            }
            if self.hosts().len() == 0 {
                assert(self@ =~= Map::<Seq<char>, HostView>::empty());
            }
        }
        self.entries.len() == 0
    }

    /// The host at position `i` of the display order.
    pub fn at(&self, i: usize) -> (e: &HostEntry)
        requires
            i < self.hosts().len(),
        ensures
            e@ == self.hosts()[i as int],
    {
        &self.entries[i]
    }

    /// Where among the hosts the alias belongs, and whether a host goes
    /// by it.
    fn slot(&self, alias: &str) -> (r: (usize, bool))
        requires
            self.wf(),
        ensures
            r.0 <= self.hosts().len(),
            forall|k: int| 0 <= k < r.0 ==> lex_lt((#[trigger] self.hosts()[k]).alias, alias@),
            r.1 ==> r.0 < self.hosts().len() && self.hosts()[r.0 as int].alias == alias@,
            !r.1 ==> forall|k: int|
                r.0 <= k < self.hosts().len() ==> lex_lt(alias@, (#[trigger] self.hosts()[k]).alias),
            r.1 == has_alias(self.hosts(), alias@),
    {
        let n = self.entries.len();
        let mut i: usize = 0;
        while i < n && text_less(self.entries[i].alias.as_str(), alias)
            invariant
                i <= n,
                n == self.entries.len(),
                forall|k: int| 0 <= k < i ==> lex_lt((#[trigger] self.hosts()[k]).alias, alias@),
            decreases n - i,
        {
            i += 1;
        }
        let found = i < n && !text_less(alias, self.entries[i].alias.as_str());
        proof {
            let hosts = self.hosts();
            if found {
                lemma_lex_lt_total(hosts[i as int].alias, alias@);
            } else {
                assert forall|k: int| i <= k < hosts.len() implies lex_lt(
                    alias@,
                    (#[trigger] hosts[k]).alias,
                ) by {
                    if k > i {
                        lemma_lex_lt_transitive(alias@, hosts[i as int].alias, hosts[k].alias);
                    }
                }
                if has_alias(hosts, alias@) {
                    let k = choose|k: int| 0 <= k < hosts.len() && (#[trigger] hosts[k]).alias == alias@;
                    lemma_lex_lt_irreflexive(alias@);
                }
            }
        }
        (i, found)
    }

    /// The position of the host with the given alias in the display
    /// order.
    pub fn position(&self, alias: &str) -> (r: Option<usize>)
        requires
            self.wf(),
        ensures
            r is Some <==> self@.dom().contains(alias@),
            r matches Some(i) ==> i < self.hosts().len() && self.hosts()[i as int].alias == alias@,
    {
        proof {
            lemma_to_map_domain(self.hosts());
        }
        let (i, found) = self.slot(alias);
        if found {
            Some(i)
        } else {
            None
        }
    }

    /// The host with the given alias.
    pub fn get(&self, alias: &str) -> (r: Option<&HostEntry>)
        requires
            self.wf(),
        ensures
            r is Some <==> self@.dom().contains(alias@),
            r matches Some(e) ==> e@ == self@[alias@],
    {
        match self.position(alias) {
            Some(i) => {
                proof {
                    lemma_to_map_lookup(self.hosts(), i as int);
                }
                Some(&self.entries[i])
            },
            None => None,
        }
    }

    /// Introduces a host: afterwards the alias stands for a host without
    /// settings, whatever it stood for before. Returns the position of
    /// that host.
    pub(crate) fn declare(&mut self, alias: String) -> (i: usize)
        requires
            old(self).wf(),
            alias@.len() > 0,
        ensures
            final(self).wf(),
            final(self)@ == old(self)@.insert(alias@, fresh_host(alias@)),
            i < final(self).hosts().len(),
            final(self).hosts()[i as int] == fresh_host(alias@),
    {
        let (i, found) = self.slot(alias.as_str());
        let ghost before = self.hosts();
        let entry = HostEntry::new(alias);
        if found {
            self.entries[i] = entry;
            proof {
                assert(self.hosts() =~= before.update(i as int, entry@));
                lemma_to_map_update(before, i as int, entry@);
            }
        } else {
            self.entries.insert(i, entry);
            proof {
                assert(self.hosts() =~= before.insert(i as int, entry@));
                lemma_to_map_insert(before, i as int, entry@);
            }
        }
        i
    }

    /// Gives the host at position `i` another host name.
    pub(crate) fn set_hostname(&mut self, i: usize, hostname: String)
        requires
            old(self).wf(),
            i < old(self).hosts().len(),
            hostname@.len() > 0,
        ensures
            final(self).wf(),
            final(self).hosts() == old(self).hosts().update(
                i as int,
                with_hostname(old(self).hosts()[i as int], hostname@),
            ),
            final(self)@ == old(self)@.insert(
                old(self).hosts()[i as int].alias,
                with_hostname(old(self).hosts()[i as int], hostname@),
            ),
    {
        let ghost before = self.hosts();
        self.entries[i].hostname = hostname;
        proof {
            let host = with_hostname(before[i as int], hostname@);
            assert(self.hosts() =~= before.update(i as int, host));
            lemma_to_map_update(before, i as int, host);
        }
    }

    /// Gives the host at position `i` another login name.
    pub(crate) fn set_username(&mut self, i: usize, username: String)
        requires
            old(self).wf(),
            i < old(self).hosts().len(),
        ensures
            final(self).wf(),
            final(self).hosts() == old(self).hosts().update(
                i as int,
                with_username(old(self).hosts()[i as int], username@),
            ),
            final(self)@ == old(self)@.insert(
                old(self).hosts()[i as int].alias,
                with_username(old(self).hosts()[i as int], username@),
            ),
    {
        let ghost before = self.hosts();
        self.entries[i].username = Some(username);
        proof {
            let host = with_username(before[i as int], username@);
            assert(self.hosts() =~= before.update(i as int, host));
            lemma_to_map_update(before, i as int, host);
        }
    }

    /// Gives the host at position `i` another identity file.
    pub(crate) fn set_identity_file(&mut self, i: usize, path: String)
        requires
            old(self).wf(),
            i < old(self).hosts().len(),
        ensures
            final(self).wf(),
            final(self).hosts() == old(self).hosts().update(
                i as int,
                with_identity_file(old(self).hosts()[i as int], path@),
            ),
            final(self)@ == old(self)@.insert(
                old(self).hosts()[i as int].alias,
                with_identity_file(old(self).hosts()[i as int], path@),
            ),
    {
        let ghost before = self.hosts();
        self.entries[i].identity_file = Some(path);
        proof {
            let host = with_identity_file(before[i as int], path@);
            assert(self.hosts() =~= before.update(i as int, host));
            lemma_to_map_update(before, i as int, host);
        }
    }

    /// Records the outcome of a probe of the host at position `i`: the
    /// measurement, or none.
    pub fn set_latency(&mut self, i: usize, latency: Option<u128>)
        requires
            old(self).wf(),
            i < old(self).hosts().len(),
        ensures
            final(self).wf(),
            final(self).hosts() == old(self).hosts().update(
                i as int,
                with_latency(old(self).hosts()[i as int], latency),
            ),
            final(self)@ == old(self)@.insert(
                old(self).hosts()[i as int].alias,
                with_latency(old(self).hosts()[i as int], latency),
            ),
    {
        let ghost before = self.hosts();
        self.entries[i].latency = latency;
        proof {
            let host = with_latency(before[i as int], latency);
            assert(self.hosts() =~= before.update(i as int, host));
            lemma_to_map_update(before, i as int, host);
        }
    }
}

} // verus!

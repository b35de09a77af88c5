//! What holds of every configuration: how the hosts that are read depend
//! on the host blocks of the text.

use crate::directive::{classify, lemma_directive_value_nonempty, DirectiveView};
use crate::parser::{current_host, feed, initial_state, parse_lines, run, ParseState};
use vstd::prelude::*;

verus! {

/// Every host is filed under its own alias, has an alias and a host
/// name, and the open block is one of the hosts.
pub open spec fn consistent(state: ParseState) -> bool {
    &&& state.hosts.dom().finite()
    &&& forall|a: Seq<char>| #[trigger]
        state.hosts.dom().contains(a) ==> {
            &&& state.hosts[a].alias == a
            &&& a.len() > 0
            &&& state.hosts[a].hostname.len() > 0
        }
    &&& state.current matches Some(a) ==> state.hosts.dom().contains(a)
}

/// The aliases that the host lines among `lines` introduce, in the order
/// of the lines.
pub open spec fn introduced_aliases(lines: Seq<Seq<char>>) -> Seq<Seq<char>>
    decreases lines.len(),
{
    if lines.len() == 0 {
        Seq::empty()
    } else {
        let before = introduced_aliases(lines.drop_last());
        match classify(lines.last()) {
            DirectiveView::Host(alias) => before.push(alias),
            _ => before,
        }
    }
}

/// Two states know the host `a`, know the same of it, and have the same
/// block open.
pub open spec fn agree_on(s1: ParseState, s2: ParseState, a: Seq<char>) -> bool {
    &&& s1.current == s2.current
    &&& s1.hosts.dom().contains(a)
    &&& s2.hosts.dom().contains(a)
    &&& s1.hosts[a] == s2.hosts[a]
}

/// Reading lines can be done in two parts.
pub proof fn lemma_run_split(state: ParseState, lines: Seq<Seq<char>>, k: int)
    requires
        0 <= k <= lines.len(),
    ensures
        run(state, lines) == run(run(state, lines.take(k)), lines.skip(k)),
    decreases lines.len(),
{
    if k == lines.len() {
        assert(lines.take(k) =~= lines);
    } else {
        let front = lines.drop_last();
        lemma_run_split(state, front, k);
        assert(front.take(k) =~= lines.take(k));
        assert(front.skip(k) =~= lines.skip(k).drop_last());
        assert(lines.skip(k).last() == lines.last());
    }
}

/// Reading one line is feeding it.
pub proof fn lemma_run_one(state: ParseState, line: Seq<char>)
    ensures
        run(state, seq![line]) == feed(state, line),
{
    reveal_with_fuel(run, 2);
    assert(seq![line].drop_last() =~= Seq::<Seq<char>>::empty());
    assert(seq![line].last() == line);
}

/// Reading a line keeps the state consistent.
pub proof fn lemma_feed_consistent(state: ParseState, line: Seq<char>)
    requires
        consistent(state),
    ensures
        consistent(feed(state, line)),
{
    lemma_directive_value_nonempty(line);
}

/// Reading lines keeps the state consistent.
pub proof fn lemma_run_consistent(state: ParseState, lines: Seq<Seq<char>>)
    requires
        consistent(state),
    ensures
        consistent(run(state, lines)),
    decreases lines.len(),
{
    if lines.len() > 0 {
        lemma_run_consistent(state, lines.drop_last());
        lemma_feed_consistent(run(state, lines.drop_last()), lines.last());
    }
}

/// Whatever the lines, each host that was read is filed under its own
/// alias and has a host name that is not empty, and there are finitely
/// many hosts.
pub proof fn lemma_parse_consistent(lines: Seq<Seq<char>>)
    ensures
        consistent(parse_lines(lines)),
{
    lemma_run_consistent(initial_state(), lines);
}

/// The hosts that were read are those that the host lines introduce.
pub proof fn lemma_hosts_are_introduced(lines: Seq<Seq<char>>)
    ensures
        parse_lines(lines).hosts.dom() == introduced_aliases(lines).to_set(),
    decreases lines.len(),
{
    if lines.len() == 0 {
        assert(parse_lines(lines).hosts.dom() =~= introduced_aliases(lines).to_set());
    } else {
        let front = lines.drop_last();
        lemma_hosts_are_introduced(front);
        lemma_parse_consistent(front);
        let before = parse_lines(front);
        match classify(lines.last()) {
            DirectiveView::Host(alias) => {
                introduced_aliases(front).lemma_push_to_set_commute(alias);
            },
            _ => {
                assert(feed(before, lines.last()).hosts.dom() =~= before.hosts.dom());
            },
        }
    }
}

/// A configuration whose host lines introduce pairwise different
/// aliases yields as many hosts as it has host lines.
pub proof fn lemma_distinct_hosts_counted(lines: Seq<Seq<char>>)
    requires
        introduced_aliases(lines).no_duplicates(),
    ensures
        parse_lines(lines).hosts.dom().finite(),
        parse_lines(lines).hosts.dom().len() == introduced_aliases(lines).len(),
{
    lemma_hosts_are_introduced(lines);
    lemma_parse_consistent(lines);
    introduced_aliases(lines).unique_seq_to_set();
}

/// States that agree on a host still do after reading the same line.
pub proof fn lemma_feed_agree(s1: ParseState, s2: ParseState, a: Seq<char>, line: Seq<char>)
    requires
        consistent(s1),
        consistent(s2),
        agree_on(s1, s2, a),
    ensures
        agree_on(feed(s1, line), feed(s2, line), a),
{
}

/// States that agree on a host still do after reading the same lines.
pub proof fn lemma_run_agree(
    s1: ParseState,
    s2: ParseState,
    a: Seq<char>,
    lines: Seq<Seq<char>>,
)
    requires
        consistent(s1),
        consistent(s2),
        agree_on(s1, s2, a),
    ensures
        agree_on(run(s1, lines), run(s2, lines), a),
    decreases lines.len(),
{
    if lines.len() > 0 {
        let front = lines.drop_last();
        lemma_run_agree(s1, s2, a, front);
        lemma_run_consistent(s1, front);
        lemma_run_consistent(s2, front);
        lemma_feed_agree(run(s1, front), run(s2, front), a, lines.last());
    }
}

/// While another block is open and no line introduces the host `a`,
/// nothing changes what is known of `a`.
pub proof fn lemma_run_untouched(state: ParseState, a: Seq<char>, lines: Seq<Seq<char>>)
    requires
        consistent(state),
        state.current != Some(a),
        forall|j: int| 0 <= j < lines.len() ==> classify(#[trigger] lines[j]) != DirectiveView::Host(a),
    ensures
        run(state, lines).current != Some(a),
        run(state, lines).hosts.dom().contains(a) == state.hosts.dom().contains(a),
        state.hosts.dom().contains(a) ==> run(state, lines).hosts[a] == state.hosts[a],
    decreases lines.len(),
{
    if lines.len() > 0 {
        let front = lines.drop_last();
        assert forall|j: int| 0 <= j < front.len() implies classify(#[trigger] front[j])
            != DirectiveView::Host(a) by {
            assert(front[j] == lines[j]);
        }
        lemma_run_untouched(state, a, front);
        lemma_run_consistent(state, front);
        assert(classify(lines[lines.len() - 1]) != DirectiveView::Host(a));
    }
}

/// Lines without a host-name directive leave a host name that equals the
/// alias as it is.
pub proof fn lemma_run_keeps_default_hostname(
    state: ParseState,
    a: Seq<char>,
    lines: Seq<Seq<char>>,
)
    requires
        consistent(state),
        state.hosts.dom().contains(a),
        state.hosts[a].hostname == a,
        forall|j: int| 0 <= j < lines.len() ==> !(classify(#[trigger] lines[j]) is Hostname),
    ensures
        run(state, lines).hosts.dom().contains(a),
        run(state, lines).hosts[a].hostname == a,
    decreases lines.len(),
{
    if lines.len() > 0 {
        let front = lines.drop_last();
        assert forall|j: int| 0 <= j < front.len() implies !(classify(#[trigger] front[j])
            is Hostname) by {
            assert(front[j] == lines[j]);
        }
        lemma_run_keeps_default_hostname(state, a, front);
        lemma_run_consistent(state, front);
        assert(!(classify(lines[lines.len() - 1]) is Hostname));
    }
}

/// The last block of a host decides what is known of it. Let line `k`
/// introduce the host `a`, let the lines from `k` up to `e` be followed
/// by a host line or by the end of the text, and let no line from `e` on
/// introduce `a` again. Then the configuration knows of `a` what the
/// lines from `k` up to `e` alone would give: whatever an earlier block
/// of the same alias set is gone.
pub proof fn lemma_last_block_wins(lines: Seq<Seq<char>>, k: int, e: int, a: Seq<char>)
    requires
        0 <= k < e <= lines.len(),
        classify(lines[k]) == DirectiveView::Host(a),
        e < lines.len() ==> classify(lines[e]) is Host,
        forall|j: int| e <= j < lines.len() ==> classify(#[trigger] lines[j]) != DirectiveView::Host(a),
    ensures
        parse_lines(lines).hosts.dom().contains(a),
        parse_lines(lines.subrange(k, e)).hosts.dom().contains(a),
        parse_lines(lines).hosts[a] == parse_lines(lines.subrange(k, e)).hosts[a],
{
    let block = lines.subrange(k, e);
    let head = lines.take(e);
    let prior = run(initial_state(), lines.take(k));
    lemma_run_consistent(initial_state(), lines.take(k));
    // The text up to `e` is what precedes the block, then the block.
    lemma_run_split(initial_state(), head, k);
    assert(head.take(k) =~= lines.take(k));
    assert(head.skip(k) =~= block);
    // The block is its host line, then the rest of it.
    lemma_run_split(prior, block, 1);
    lemma_run_split(initial_state(), block, 1);
    assert(block.take(1) =~= seq![lines[k]]);
    lemma_run_one(prior, lines[k]);
    lemma_run_one(initial_state(), lines[k]);
    let t1 = feed(prior, lines[k]);
    let t2 = feed(initial_state(), lines[k]);
    lemma_feed_consistent(prior, lines[k]);
    lemma_feed_consistent(initial_state(), lines[k]);
    lemma_run_agree(t1, t2, a, block.skip(1));
    let at_end = run(initial_state(), head);
    assert(agree_on(at_end, parse_lines(block), a));
    if e == lines.len() {
        assert(head =~= lines);
    } else {
        lemma_run_consistent(initial_state(), head);
        let rest = lines.skip(e);
        lemma_run_split(initial_state(), lines, e);
        lemma_run_split(at_end, rest, 1);
        assert(rest.take(1) =~= seq![lines[e]]);
        lemma_run_one(at_end, lines[e]);
        let next = feed(at_end, lines[e]);
        lemma_feed_consistent(at_end, lines[e]);
        assert(classify(lines[e]) != DirectiveView::Host(a));
        assert forall|j: int| 0 <= j < rest.skip(1).len() implies classify(
            #[trigger] rest.skip(1)[j],
        ) != DirectiveView::Host(a) by {
            assert(rest.skip(1)[j] == lines[e + 1 + j]);
        }
        lemma_run_untouched(next, a, rest.skip(1));
    }
}

/// A host block without a host-name directive leaves the alias as the
/// host name. The block is the one of [`lemma_last_block_wins`]: the
/// lines from `k`, which introduces `a`, up to `e`.
pub proof fn lemma_default_hostname(lines: Seq<Seq<char>>, k: int, e: int, a: Seq<char>)
    requires
        0 <= k < e <= lines.len(),
        classify(lines[k]) == DirectiveView::Host(a),
        e < lines.len() ==> classify(lines[e]) is Host,
        forall|j: int| e <= j < lines.len() ==> classify(#[trigger] lines[j]) != DirectiveView::Host(a),
        forall|j: int| k < j < e ==> !(classify(#[trigger] lines[j]) is Hostname),
    ensures
        parse_lines(lines).hosts.dom().contains(a),
        parse_lines(lines).hosts[a].hostname == a,
{
    lemma_last_block_wins(lines, k, e, a);
    let block = lines.subrange(k, e);
    lemma_run_split(initial_state(), block, 1);
    assert(block.take(1) =~= seq![lines[k]]);
    lemma_run_one(initial_state(), lines[k]);
    lemma_feed_consistent(initial_state(), lines[k]);
    assert forall|j: int| 0 <= j < block.skip(1).len() implies !(classify(
        #[trigger] block.skip(1)[j],
    ) is Hostname) by {
        assert(block.skip(1)[j] == lines[k + 1 + j]);
    }
    lemma_run_keeps_default_hostname(feed(initial_state(), lines[k]), a, block.skip(1));
}

/// Lines that introduce no host leave the initial state as it is.
pub proof fn lemma_no_host_no_effect(lines: Seq<Seq<char>>)
    requires
        forall|j: int| 0 <= j < lines.len() ==> !(classify(#[trigger] lines[j]) is Host),
    ensures
        parse_lines(lines) == initial_state(),
    decreases lines.len(),
{
    if lines.len() > 0 {
        let front = lines.drop_last();
        assert forall|j: int| 0 <= j < front.len() implies !(classify(#[trigger] front[j])
            is Host) by {
            assert(front[j] == lines[j]);
        }
        lemma_no_host_no_effect(front);
        assert(!(classify(lines[lines.len() - 1]) is Host));
        assert(current_host(initial_state()) is None);
    }
}

/// What stands before the first host line has no effect, whatever
/// directives it holds: the configuration yields the same as the text
/// from that line on.
pub proof fn lemma_directives_before_first_host(lines: Seq<Seq<char>>, k: int)
    requires
        0 <= k <= lines.len(),
        forall|j: int| 0 <= j < k ==> !(classify(#[trigger] lines[j]) is Host),
    ensures
        parse_lines(lines) == parse_lines(lines.skip(k)),
{
    assert forall|j: int| 0 <= j < lines.take(k).len() implies !(classify(
        #[trigger] lines.take(k)[j],
    ) is Host) by {
        assert(lines.take(k)[j] == lines[j]);
    }
    lemma_no_host_no_effect(lines.take(k));
    lemma_run_split(initial_state(), lines, k);
}

} // verus!

//! The lines of a client configuration and what each of them says.

use crate::text::{
    has_prefix, is_indented, is_whitespace, lemma_trim_ends, to_chars, trim, trim_bounds,
};
use vstd::prelude::*;

verus! {

/// What one line of the configuration says.
#[derive(Debug)]
pub enum Directive {
    /// Introduces the host with this alias.
    Host(String),
    /// Gives the current host this network name.
    Hostname(String),
    /// Gives the current host this login name.
    User(String),
    /// Gives the current host this identity file.
    IdentityFile(String),
    /// Says nothing that is read here.
    Ignored,
}

/// The mathematical value of a [`Directive`].
pub enum DirectiveView {
    Host(Seq<char>),
    Hostname(Seq<char>),
    User(Seq<char>),
    IdentityFile(Seq<char>),
    Ignored,
}

impl View for Directive {
    type V = DirectiveView;

    open spec fn view(&self) -> DirectiveView {
        match self {
            Directive::Host(alias) => DirectiveView::Host(alias@),
            Directive::Hostname(name) => DirectiveView::Hostname(name@),
            Directive::User(name) => DirectiveView::User(name@),
            Directive::IdentityFile(path) => DirectiveView::IdentityFile(path@),
            Directive::Ignored => DirectiveView::Ignored,
        }
    }
}

/// The text that introduces a host block.
pub open spec fn host_keyword() -> Seq<char> {
    "Host "@
}

/// The text that overrides the host name.
pub open spec fn hostname_keyword() -> Seq<char> {
    "Hostname "@
}

/// The text that sets the login name.
pub open spec fn user_keyword() -> Seq<char> {
    "User "@
}

/// The text that sets the identity file.
pub open spec fn identity_file_keyword() -> Seq<char> {
    "IdentityFile "@
}

/// What the line says. The line is trimmed, and what is left is held
/// against the keywords as they are written: a trimmed line that begins
/// with the host keyword introduces the host named by the rest of it; an
/// indented line whose trimmed text begins with one of the other keywords
/// sets the value that follows the keyword; every other line is ignored.
pub open spec fn classify(line: Seq<char>) -> DirectiveView {
    let t = trim(line);
    if host_keyword().is_prefix_of(t) {
        DirectiveView::Host(t.skip(host_keyword().len() as int))
    } else if !is_indented(line) {
        DirectiveView::Ignored
    } else if hostname_keyword().is_prefix_of(t) {
        DirectiveView::Hostname(t.skip(hostname_keyword().len() as int))
    } else if user_keyword().is_prefix_of(t) {
        DirectiveView::User(t.skip(user_keyword().len() as int))
    } else if identity_file_keyword().is_prefix_of(t) {
        DirectiveView::IdentityFile(t.skip(identity_file_keyword().len() as int))
    } else {
        DirectiveView::Ignored
    }
}

/// The text of a directive's value, if the directive has one.
pub open spec fn value_of(d: DirectiveView) -> Option<Seq<char>> {
    match d {
        DirectiveView::Host(v) => Some(v),
        DirectiveView::Hostname(v) => Some(v),
        DirectiveView::User(v) => Some(v),
        DirectiveView::IdentityFile(v) => Some(v),
        DirectiveView::Ignored => None,
    }
}

/// Each keyword ends in a space.
pub proof fn lemma_keywords_end_in_space()
    ensures
        host_keyword().len() == 5 && host_keyword().last() == ' ',
        hostname_keyword().len() == 9 && hostname_keyword().last() == ' ',
        user_keyword().len() == 5 && user_keyword().last() == ' ',
        identity_file_keyword().len() == 13 && identity_file_keyword().last() == ' ',
{
    reveal_strlit("Host ");
    reveal_strlit("Hostname ");
    reveal_strlit("User ");
    reveal_strlit("IdentityFile ");
}

/// After a keyword that ends in whitespace, a trimmed text goes on.
proof fn lemma_value_follows(t: Seq<char>, keyword: Seq<char>)
    requires
        keyword.is_prefix_of(t),
        keyword.len() > 0,
        is_whitespace(keyword.last()),
        !is_whitespace(t.last()),
    ensures
        t.skip(keyword.len() as int).len() > 0,
{
    if t.len() == keyword.len() {
        assert(t.subrange(0, keyword.len() as int) =~= t);
    }
}

/// A directive never has an empty value: no alias, host name, login
/// name or path that was read from a line is empty.
pub proof fn lemma_directive_value_nonempty(line: Seq<char>)
    ensures
        value_of(classify(line)) matches Some(v) ==> v.len() > 0,
{
    lemma_keywords_end_in_space();
    lemma_trim_ends(line);
    let t = trim(line);
    if host_keyword().is_prefix_of(t) {
        lemma_value_follows(t, host_keyword());
    } else if !is_indented(line) {
    } else if hostname_keyword().is_prefix_of(t) {
        lemma_value_follows(t, hostname_keyword());
    } else if user_keyword().is_prefix_of(t) {
        lemma_value_follows(t, user_keyword());
    } else if identity_file_keyword().is_prefix_of(t) {
        lemma_value_follows(t, identity_file_keyword());
    }
}

/// What follows `keyword` in the part of `line` between `from` and `to`,
/// if that part begins with the keyword.
fn value_after(line: &str, chars: &Vec<char>, from: usize, to: usize, keyword: &str) -> (r: Option<
    String,
>)
    requires
        chars@ == line@,
        from <= to <= chars.len(),
    ensures
        r is Some <==> keyword@.is_prefix_of(line@.subrange(from as int, to as int)),
        r matches Some(v) ==> v@ == line@.subrange(from as int, to as int).skip(
            keyword@.len() as int,
        ),
{
    let key = to_chars(keyword);
    if has_prefix(chars, from, to, &key) {
        let value = line.substring_char(from + key.len(), to);
        proof {
            assert(line@.subrange(from + key.len(), to as int) =~= line@.subrange(
                from as int,
                to as int,
            ).skip(keyword@.len() as int));
        }
        Some(value.to_owned())
    } else {
        None
    }
}

/// Reads one line of the configuration.
pub fn classify_line(line: &str) -> (d: Directive)
    ensures
        d@ == classify(line@),
        value_of(d@) matches Some(v) ==> v.len() > 0,
{
    proof {
        lemma_directive_value_nonempty(line@);
    }
    let chars = to_chars(line);
    let (from, to) = trim_bounds(&chars);
    if let Some(alias) = value_after(line, &chars, from, to, "Host ") {
        return Directive::Host(alias);
    }
    if from == 0 {
        return Directive::Ignored;
    }
    if let Some(name) = value_after(line, &chars, from, to, "Hostname ") {
        return Directive::Hostname(name);
    }
    if let Some(name) = value_after(line, &chars, from, to, "User ") {
        return Directive::User(name);
    }
    if let Some(path) = value_after(line, &chars, from, to, "IdentityFile ") {
        return Directive::IdentityFile(path);
    }
    Directive::Ignored
}

} // verus!

//! One host of the client configuration.

use vstd::prelude::*;

verus! {

/// A host block of the configuration: the alias that introduces it and
/// the settings that its directives give.
#[derive(Debug)]
pub struct HostEntry {
    /// The name the user types for the host.
    pub alias: String,
    /// The network name; the alias unless a directive overrides it.
    pub hostname: String,
    /// The login name, if the block gives one.
    pub username: Option<String>,
    /// The path of the identity file, if the block gives one.
    pub identity_file: Option<String>,
    /// The last successful measurement in milliseconds, if any.
    pub latency: Option<u128>,
}

/// The mathematical value of a [`HostEntry`].
pub struct HostView {
    pub alias: Seq<char>,
    pub hostname: Seq<char>,
    pub username: Option<Seq<char>>,
    pub identity_file: Option<Seq<char>>,
    pub latency: Option<u128>,
}

impl View for HostEntry {
    type V = HostView;

    open spec fn view(&self) -> HostView {
        HostView {
            alias: self.alias@,
            hostname: self.hostname@,
            username: self.username.deep_view(),
            identity_file: self.identity_file.deep_view(),
            latency: self.latency,
        }
    }
}

/// The entry of a host block without directives: the alias serves as the
/// host name and nothing else is known.
pub open spec fn fresh_host(alias: Seq<char>) -> HostView {
    HostView { alias, hostname: alias, username: None, identity_file: None, latency: None }
}

/// A copy of an optional text.
pub fn clone_text(text: &Option<String>) -> (r: Option<String>)
    ensures
        r.deep_view() == text.deep_view(),
{
    match text {
        Some(t) => Some(t.clone()),
        None => None,
    }
}

impl HostEntry {
    /// The entry of a host block that has just been introduced.
    pub fn new(alias: String) -> (e: HostEntry)
        ensures
            e@ == fresh_host(alias@),
    {
        let hostname = alias.clone();
        HostEntry { alias, hostname, username: None, identity_file: None, latency: None }
    }
}

impl Clone for HostEntry {
    fn clone(&self) -> (r: Self)
        ensures
            r@ == self@,
    {
        HostEntry {
            alias: self.alias.clone(),
            hostname: self.hostname.clone(),
            username: clone_text(&self.username),
            identity_file: clone_text(&self.identity_file),
            latency: self.latency,
        }
    }
}

} // verus!

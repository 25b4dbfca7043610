//! Probe targets and the set of them that one run waits for.

use vstd::prelude::*;
use crate::address::SocketAddress;
use crate::http_url::HttpUrl;

verus! {

/// One thing to wait for: a TCP address that accepts a connection, or a URL
/// that answers with a 2xx status.
#[derive(Debug, PartialEq, Eq)]
pub enum ProbeTarget {
    Tcp(SocketAddress),
    Http(HttpUrl),
}

/// A target as contracts see it.
pub enum TargetView {
    Tcp(SocketAddress),
    Http(Seq<char>),
}

impl View for ProbeTarget {
    type V = TargetView;

    open spec fn view(&self) -> TargetView {
        match self {
            ProbeTarget::Tcp(address) => TargetView::Tcp(*address),
            ProbeTarget::Http(url) => TargetView::Http(url@),
        }
    }
}

/// The targets of one run. Their order is the order in which they were
/// resolved; it carries no meaning beyond numbering the probe tasks.
#[derive(Debug, PartialEq, Eq)]
pub struct ProbeSet {
    targets: Vec<ProbeTarget>,
}

impl View for ProbeSet {
    type V = Seq<TargetView>;

    closed spec fn view(&self) -> Seq<TargetView> {
        views(self.targets@)
    }
}

/// The views of `targets`, one for one.
pub open spec fn views(targets: Seq<ProbeTarget>) -> Seq<TargetView> {
    targets.map_values(|t: ProbeTarget| t@)
}

/// The TCP targets among `targets`, in their order.
pub open spec fn tcp_part(targets: Seq<TargetView>) -> Seq<TargetView> {
    targets.filter(|t: TargetView| t is Tcp)
}

/// The HTTP targets among `targets`, in their order.
pub open spec fn http_part(targets: Seq<TargetView>) -> Seq<TargetView> {
    targets.filter(|t: TargetView| t is Http)
}

impl ProbeSet {
    /// The set that holds `targets`, in their order.
    pub fn new(targets: Vec<ProbeTarget>) -> (set: ProbeSet)
        ensures
            set@ == views(targets@),
    {
        ProbeSet { targets }
    }

    /// The number of targets.
    pub fn len(&self) -> (n: usize)
        ensures
            n == self@.len(),
    {
        self.targets.len()
    }

    /// The target at `index`, or `None` past the end.
    pub fn get(&self, index: usize) -> (target: Option<&ProbeTarget>)
        ensures
            target is Some <==> index < self@.len(),
            target matches Some(t) ==> t@ == self@[index as int],
    {
        if index < self.targets.len() {
            Some(&self.targets[index])
        } else {
            None
        }
    }

    /// Gives the targets up, in their order.
    pub fn into_targets(self) -> (targets: Vec<ProbeTarget>)
        ensures
            views(targets@) == self@,
    {
        self.targets
    }
}

} // verus!

//! Bootstrapping: making the engine's first peers known, then joining.
//!
//! The address of each bootstrap node is added in the order given, one
//! request at a time. Only after the last one was added is the engine told to
//! bootstrap. The first request that fails ends the whole call with its
//! error, and nothing more is sent.

use vstd::prelude::*;
use crate::port::{PortError, PutReply};

verus! {

/// What is to be done next while bootstrapping.
#[derive(Clone, Copy, Debug, PartialEq, Eq, Structural)]
pub enum BootstrapStep {
    /// Add the address of the node with this index.
    AddAddress(usize),
    /// Tell the engine to bootstrap.
    Bootstrap,
    /// Nothing: every request succeeded.
    Succeeded,
    /// Nothing: a request failed with this error.
    Failed(PortError),
}

/// How far a bootstrap has come.
#[derive(Clone, Copy, Debug)]
pub struct Bootstrap {
    nodes: usize,
    added: usize,
    ended: Option<Option<PortError>>,
}

/// What a bootstrap is in contracts.
pub struct BootstrapView {
    /// How many nodes are to be added.
    pub nodes: nat,
    /// How many of them were added, from the front.
    pub added: nat,
    /// Whether the bootstrap has ended, and with which error if with one.
    pub ended: Option<Option<PortError>>,
}

impl BootstrapView {
    /// What holds of every bootstrap at every moment.
    pub open spec fn wf(self) -> bool {
        &&& self.added <= self.nodes
        &&& self.ended == Some(None::<PortError>) ==> self.added == self.nodes
    }

    /// A bootstrap that has sent nothing yet.
    pub open spec fn start(nodes: nat) -> Self {
        BootstrapView { nodes, added: 0, ended: None }
    }

    /// What is to be done next.
    pub open spec fn step(self) -> BootstrapStep {
        match self.ended {
            Some(Some(error)) => BootstrapStep::Failed(error),
            Some(None) => BootstrapStep::Succeeded,
            None => if self.added < self.nodes {
                BootstrapStep::AddAddress(self.added as usize)
            } else {
                BootstrapStep::Bootstrap
            },
        }
    }

    /// The bootstrap after the request of its step was answered by `reply`.
    /// A bootstrap that has ended stays as it is.
    pub open spec fn record(self, reply: PutReply) -> Self {
        match self.ended {
            Some(_) => self,
            None => match reply {
                Err(error) => BootstrapView { ended: Some(Some(error)), ..self },
                Ok(_) => if self.added < self.nodes {
                    BootstrapView { added: self.added + 1, ..self }
                } else {
                    BootstrapView { ended: Some(None), ..self }
                },
            },
        }
    }
}

/// The first error among the first `n` replies, if one of them is an error.
pub open spec fn first_error(replies: Seq<PutReply>, n: nat) -> Option<PortError>
    decreases n,
{
    if n == 0 {
        None
    } else {
        match first_error(replies, (n - 1) as nat) {
            Some(error) => Some(error),
            None => match replies[n - 1] {
                Err(error) => Some(error),
                Ok(_) => None,
            },
        }
    }
}

/// Once a reply among the first `k` is an error, the first error among more
/// replies is the same: what follows an error changes nothing.
pub proof fn lemma_first_error_stays(replies: Seq<PutReply>, k: nat, n: nat)
    requires
        k <= n,
        first_error(replies, k) is Some,
    ensures
        first_error(replies, n) == first_error(replies, k),
    decreases n,
{
    if k < n {
        lemma_first_error_stays(replies, k, (n - 1) as nat);
    }
}

/// How a bootstrap of `nodes` nodes ends where `replies` holds the reply to
/// each node's address, in order, and after them the reply to the bootstrap
/// itself: with the first error among them, or well if there is none.
pub open spec fn bootstrap_result(nodes: nat, replies: Seq<PutReply>) -> Result<(), PortError>
    recommends
        replies.len() == nodes + 1,
{
    match first_error(replies, nodes + 1) {
        Some(error) => Err(error),
        None => Ok(()),
    }
}

impl View for Bootstrap {
    type V = BootstrapView;

    closed spec fn view(&self) -> BootstrapView {
        BootstrapView { nodes: self.nodes as nat, added: self.added as nat, ended: self.ended }
    }
}

impl Bootstrap {
    /// A bootstrap from `nodes` nodes that has sent nothing yet.
    pub fn new(nodes: usize) -> (bootstrap: Self)
        ensures
            bootstrap@ == BootstrapView::start(nodes as nat),
            bootstrap@.wf(),
    {
        Bootstrap { nodes, added: 0, ended: None }
    }

    /// What is to be done next.
    pub fn step(&self) -> (step: BootstrapStep)
        requires
            self@.wf(),
        ensures
            step == self@.step(),
            step matches BootstrapStep::AddAddress(index) ==> index < self@.nodes,
    {
        match self.ended {
            Some(Some(error)) => BootstrapStep::Failed(error),
            Some(None) => BootstrapStep::Succeeded,
            None => if self.added < self.nodes {
                BootstrapStep::AddAddress(self.added)
            } else {
                BootstrapStep::Bootstrap
            },
        }
    }

    /// Takes the reply to the request of the current step.
    pub fn record_reply(&mut self, reply: &PutReply)
        requires
            old(self)@.wf(),
        ensures
            final(self)@ == old(self)@.record(*reply),
            final(self)@.wf(),
    {
        if self.ended.is_none() {
            match reply {
                Err(error) => {
                    self.ended = Some(Some(*error));
                },
                Ok(_) => {
                    if self.added < self.nodes {
                        self.added = self.added + 1;
                    } else {
                        self.ended = Some(None);
                    }
                },
            }
        }
    }
}

/// The engine is told to bootstrap only after every node was added: a
/// bootstrap steps to an address while nodes are left, to the bootstrap
/// itself when all were added, and once a reply was an error to nothing but
/// that error.
pub proof fn lemma_bootstrap_order(bootstrap: BootstrapView, reply: PutReply)
    requires
        bootstrap.wf(),
    ensures
        bootstrap.record(reply).wf(),
        bootstrap.step() == BootstrapStep::Bootstrap ==> bootstrap.added == bootstrap.nodes,
        bootstrap.step() == BootstrapStep::Succeeded ==> bootstrap.added == bootstrap.nodes,
        bootstrap.ended is None ==> (reply matches Err(error) ==> bootstrap.record(reply).step()
            == BootstrapStep::Failed(error)),
        bootstrap.ended is Some ==> bootstrap.record(reply) == bootstrap,
{
}

} // verus!

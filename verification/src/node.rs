//! The server node: the transports it offers and the scorer that knows
//! them. Listening and accepting are the caller's.

use crate::router::{registered, PathRecord, Router};
use crate::transport::TransportKind;
use vstd::prelude::*;

verus! {

/// Connections that may wait between a listener and the node's main loop.
pub const ACCEPT_QUEUE_CAPACITY: usize = 100;

/// Why a node cannot serve.
#[derive(Debug, Clone, Copy, PartialEq, Eq, Structural)]
pub enum NodeError {
    /// The transport cannot listen.
    CannotListen(TransportKind),
}

/// A node that can listen on several transports at once.
pub struct ChimeraNode {
    transports: Vec<TransportKind>,
    router: Router,
}

impl ChimeraNode {
    /// What holds of every node that `new` made, whatever was done with it
    /// since: its registry is well-formed.
    pub closed spec fn wf(&self) -> bool {
        self.router.wf()
    }

    /// The transports, in the order in which they were added.
    pub closed spec fn transports(&self) -> Seq<TransportKind> {
        self.transports@
    }

    /// The scorer's registry.
    pub closed spec fn paths(&self) -> Seq<PathRecord> {
        self.router@
    }

    /// A node without transports.
    pub fn new() -> (n: ChimeraNode)
        ensures
            n.wf(),
            n.transports() == Seq::<TransportKind>::empty(),
            n.paths() == Seq::<PathRecord>::empty(),
    {
        ChimeraNode { transports: Vec::new(), router: Router::new() }
    }

    /// Adds a transport and registers its name with the scorer.
    pub fn add_transport(&mut self, transport: TransportKind, now_ms: u64)
        requires
            old(self).wf(),
        ensures
            final(self).wf(),
            final(self).transports() == old(self).transports().push(transport),
            final(self).paths() == registered(old(self).paths(), transport.spec_name(), now_ms),
    {
        self.router.register_path(transport.name(), now_ms);
        self.transports.push(transport);
    }

    /// The scorer.
    pub fn router(&self) -> (r: &Router)
        requires
            self.wf(),
        ensures
            r.wf(),
            r@ == self.paths(),
    {
        &self.router
    }

    /// The transports to listen on: all of them, in order, provided that
    /// each can listen. The first that cannot is the error.
    pub fn listen_plan(&self) -> (r: Result<Vec<TransportKind>, NodeError>)
        ensures
            r is Err <==> self.transports().contains(TransportKind::Blocked),
            match r {
                Ok(plan) => plan@ == self.transports(),
                Err(e) => e == NodeError::CannotListen(TransportKind::Blocked),
            },
    {
        let mut plan: Vec<TransportKind> = Vec::new();
        let mut i: usize = 0;
        while i < self.transports.len()
            invariant
                i <= self.transports@.len(),
                plan@ == self.transports@.take(i as int),
                forall|j: int| 0 <= j < i ==> #[trigger] self.transports@[j] == TransportKind::Tcp,
            decreases self.transports@.len() - i,
        {
            let transport = self.transports[i];
            if !transport.can_listen() {
                assert(self.transports@[i as int] == TransportKind::Blocked);
                return Err(NodeError::CannotListen(transport));
            }
            plan.push(transport);
            assert(plan@ =~= self.transports@.take(i + 1));
            i = i + 1;
        }
        assert(self.transports@.take(i as int) =~= self.transports@);
        Ok(plan)
    }
}

} // verus!

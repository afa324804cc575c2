use vstd::prelude::*;

use crate::clock::{observed, ticked, LamportClock};
use crate::error::ProtocolError;
use crate::message::{one, Message, MessageType, NodeId, Outgoing};

verus! {

/// The total order on (timestamp, id) keys of the full-quorum variant.
pub open spec fn flat_key_lt(ts1: u128, id1: u128, ts2: u128, id2: u128) -> bool {
    ts1 < ts2 || (ts1 == ts2 && id1 < id2)
}

/// What a node knows of one peer, in the table shared by its requester and
/// its listener.
#[derive(Debug, Clone, Copy, PartialEq, Eq, Structural)]
pub struct PeerEntry {
    /// The node must ask this peer before its next entry: it has given the
    /// peer its permission since it last had the peer's.
    pub need_permission: bool,
    /// The current request still waits for this peer's Reply.
    pub awaiting: bool,
    /// The node owes this peer a Reply, held back until it leaves the
    /// critical section.
    pub deferred: bool,
}

/// The peer table of a new node: it starts out holding the permission of
/// every peer after it, and must ask those before it.
pub open spec fn initial_peers(id: u128, n: usize) -> Seq<PeerEntry> {
    Seq::new(
        n as nat,
        |i: int| PeerEntry { need_permission: i < id, awaiting: false, deferred: false },
    )
}

/// A node answers a Request at once unless it is in the critical section,
/// or is waiting with a request of its own that goes first.
pub open spec fn defers(in_cs: bool, requesting: bool, own_ts: u128, id: u128, ts: u128, from: u128) -> bool {
    in_cs || (requesting && flat_key_lt(own_ts, id, ts, from))
}

/// Every peer this request waited for has replied.
pub open spec fn all_replied(peers: Seq<PeerEntry>) -> bool {
    forall|i: int| 0 <= i < peers.len() ==> !(#[trigger] peers[i]).awaiting
}

pub open spec fn increasing(s: Seq<usize>) -> bool {
    forall|i: int, j: int| 0 <= i < j < s.len() ==> #[trigger] s[i] < #[trigger] s[j]
}

/// Everything but the peer table and the termination count is as it was.
pub open spec fn same_role(o: RCNode, f: RCNode) -> bool {
    f.id == o.id && f.requesting == o.requesting && f.in_cs == o.in_cs && f.own_ts == o.own_ts
}

/// Nothing changed.
pub open spec fn same_node(o: RCNode, f: RCNode) -> bool {
    same_role(o, f) && f.peers@ == o.peers@ && f.terminated == o.terminated
}

/// A node of the full-quorum variant: every one of the `n` nodes is in its
/// quorum.
pub struct RCNode {
    pub id: u128,
    pub peers: Vec<PeerEntry>,
    /// The requester wants the critical section, or holds it.
    pub requesting: bool,
    pub in_cs: bool,
    /// The timestamp of the current request.
    pub own_ts: u128,
    /// Terminate messages counted so far.
    pub terminated: usize,
}

impl RCNode {
    pub open spec fn wf(&self) -> bool {
        &&& self.id < self.peers@.len()
        &&& self.terminated <= self.peers@.len()
        &&& self.in_cs ==> self.requesting
    }

    /// Node `id` of `n`.
    pub fn new(id: u128, n: usize) -> (r: RCNode)
        requires
            id < n,
        ensures
            r.wf(),
            r.id == id,
            r.peers@ == initial_peers(id, n),
            !r.requesting,
            !r.in_cs,
            r.own_ts == 0,
            r.terminated == 0,
    {
        let mut peers: Vec<PeerEntry> = Vec::new();
        let mut i: usize = 0;
        while i < n
            invariant
                i <= n,
                peers@ == initial_peers(id, i),
            decreases n - i,
        {
            peers.push(PeerEntry { need_permission: (i as u128) < id, awaiting: false, deferred: false });
            i = i + 1;
            assert(peers@ =~= initial_peers(id, i));
        }
        RCNode { id, peers, requesting: false, in_cs: false, own_ts: 0, terminated: 0 }
    }

    /// Whether every node has said it is done.
    pub fn is_done(&self) -> (r: bool)
        ensures
            r == (self.terminated == self.peers@.len()),
    {
        self.terminated == self.peers.len()
    }

    /// Starts a request: stamps it with a tick of the clock and returns, in
    /// increasing order, the peers to send it to, which are those whose
    /// permission the node must ask for; it then waits for each of them.
    pub fn request_cs(&mut self, clock: &mut LamportClock) -> (r: Vec<usize>)
        requires
            old(self).wf(),
            !old(self).requesting,
            old(clock).value < u128::MAX,
        ensures
            final(self).wf(),
            final(clock).value == ticked(old(clock).value),
            final(self).own_ts == final(clock).value,
            final(self).requesting,
            !final(self).in_cs,
            final(self).id == old(self).id,
            final(self).terminated == old(self).terminated,
            final(self).peers@.len() == old(self).peers@.len(),
            forall|i: int|
                0 <= i < old(self).peers@.len() ==> #[trigger] final(self).peers@[i] == (PeerEntry {
                    awaiting: old(self).peers@[i].need_permission,
                    ..old(self).peers@[i]
                }),
            increasing(r@),
            forall|i: int| 0 <= i < r@.len() ==> #[trigger] r@[i] < old(self).peers@.len() && old(self).peers@[r@[i] as int].need_permission,
            forall|k: int|
                0 <= k < old(self).peers@.len() && (#[trigger] old(self).peers@[k]).need_permission ==> r@.contains(k as usize),
    {
        self.own_ts = clock.tick();
        self.requesting = true;
        let ghost start = old(self).peers@;
        let n = self.peers.len();
        let mut out: Vec<usize> = Vec::new();
        let mut k: usize = 0;
        while k < n
            invariant
                n == start.len() == self.peers@.len(),
                start.len() == old(self).peers@.len(),
                self.id == old(self).id,
                self.terminated == old(self).terminated,
                old(self).wf(),
                self.own_ts == clock.value,
                self.requesting,
                !self.in_cs,
                k <= n,
                forall|j: int| k <= j < n ==> #[trigger] self.peers@[j] == start[j],
                forall|j: int|
                    0 <= j < k ==> #[trigger] self.peers@[j] == (PeerEntry {
                        awaiting: start[j].need_permission,
                        ..start[j]
                    }),
                increasing(out@),
                forall|i: int| 0 <= i < out@.len() ==> #[trigger] out@[i] < k && start[out@[i] as int].need_permission,
                forall|j: int| 0 <= j < k && (#[trigger] start[j]).need_permission ==> out@.contains(j as usize),
            decreases n - k,
        {
            let ghost before = out@;
            let e = self.peers[k];
            if e.need_permission {
                out.push(k);
            }
            self.peers.set(k, PeerEntry { awaiting: e.need_permission, ..e });
            assert forall|j: int| 0 <= j <= k && (#[trigger] start[j]).need_permission implies out@.contains(j as usize) by {
                if j < k {
                    let w = choose|w: int| 0 <= w < before.len() && before[w] == j as usize;
                    assert(out@[w] == j as usize);
                } else {
                    assert(out@[out@.len() - 1] == k);
                }
            }
            k = k + 1;
        }
        out
    }

    /// Takes in one message, with the node's clock, and returns the
    /// messages to send, addressed by peer index. A Request moves the clock
    /// past its timestamp, and is answered at once or deferred. When the
    /// node answers while it waits with a request of its own, and has not
    /// asked that peer, it asks it too: the Request it sends goes out with
    /// the node's own request timestamp. A Reply counts toward the current
    /// request. A node receives Request, Reply and Terminate only, from flat
    /// ids below the number of nodes.
    pub fn on_message(&mut self, clock: &mut LamportClock, msg: Message) -> (r: Result<
        Vec<Outgoing>,
        ProtocolError,
    >)
        requires
            old(self).wf(),
        ensures
            final(self).wf(),
            same_role(*old(self), *final(self)),
            final(self).peers@.len() == old(self).peers@.len(),
            match msg.id {
                NodeId::Grid(_, _) => r == Err::<Vec<Outgoing>, ProtocolError>(
                    ProtocolError::WrongIdShape,
                ) && same_node(*old(self), *final(self)) && *final(clock) == *old(clock),
                NodeId::Flat(p) => if p >= old(self).peers@.len() {
                    r == Err::<Vec<Outgoing>, ProtocolError>(ProtocolError::UnknownPeer)
                        && same_node(*old(self), *final(self)) && *final(clock) == *old(clock)
                } else {
                    let e = old(self).peers@[p as int];
                    match msg.typ {
                        MessageType::Request => if msg.ts == u128::MAX {
                            r == Err::<Vec<Outgoing>, ProtocolError>(ProtocolError::ClockOverflow)
                                && same_node(*old(self), *final(self)) && *final(clock)
                                == *old(clock)
                        } else {
                            &&& final(clock).value == observed(old(clock).value, msg.ts)
                            &&& final(self).terminated == old(self).terminated
                            &&& r matches Ok(out) && if defers(
                                old(self).in_cs,
                                old(self).requesting,
                                old(self).own_ts,
                                old(self).id,
                                msg.ts,
                                p,
                            ) {
                                out@.len() == 0 && final(self).peers@ == old(self).peers@.update(
                                    p as int,
                                    PeerEntry { deferred: true, ..e },
                                )
                            } else if old(self).requesting && !e.awaiting {
                                out@ == one(p as usize, MessageType::Reply) + one(
                                    p as usize,
                                    MessageType::Request,
                                ) && final(self).peers@ == old(self).peers@.update(
                                    p as int,
                                    PeerEntry { need_permission: true, awaiting: true, ..e },
                                )
                            } else {
                                out@ == one(p as usize, MessageType::Reply) && final(self).peers@
                                    == old(self).peers@.update(
                                    p as int,
                                    PeerEntry { need_permission: true, ..e },
                                )
                            }
                        },
                        MessageType::Reply => *final(clock) == *old(clock) && if old(
                            self,
                        ).requesting && e.awaiting {
                            r matches Ok(out) && out@.len() == 0 && final(self).peers@ == old(
                                self,
                            ).peers@.update(
                                p as int,
                                PeerEntry { need_permission: false, awaiting: false, ..e },
                            ) && final(self).terminated == old(self).terminated
                        } else {
                            r == Err::<Vec<Outgoing>, ProtocolError>(
                                ProtocolError::Unexpected(MessageType::Reply),
                            ) && same_node(*old(self), *final(self))
                        },
                        MessageType::Terminate => *final(clock) == *old(clock) && final(self).peers@
                            == old(self).peers@ && if old(self).terminated < old(self).peers@.len() {
                            r matches Ok(out) && out@.len() == 0 && final(self).terminated == old(
                                self,
                            ).terminated + 1
                        } else {
                            r == Err::<Vec<Outgoing>, ProtocolError>(ProtocolError::ExtraTerminate)
                                && final(self).terminated == old(self).terminated
                        },
                        _ => r == Err::<Vec<Outgoing>, ProtocolError>(
                            ProtocolError::Unexpected(msg.typ),
                        ) && same_node(*old(self), *final(self)) && *final(clock) == *old(clock),
                    }
                },
            },
    {
        let p = match msg.id {
            NodeId::Flat(p) => p,
            NodeId::Grid(_, _) => {
                return Err(ProtocolError::WrongIdShape);
            },
        };
        if p >= self.peers.len() as u128 {
            return Err(ProtocolError::UnknownPeer);
        }
        let k = p as usize;
        let e = self.peers[k];
        let mut out: Vec<Outgoing> = Vec::new();
        match msg.typ {
            MessageType::Request => {
                if msg.ts == u128::MAX {
                    return Err(ProtocolError::ClockOverflow);
                }
                clock.observe(msg.ts);
                let first = self.own_ts < msg.ts || (self.own_ts == msg.ts && self.id < p);
                if self.in_cs || (self.requesting && first) {
                    self.peers.set(k, PeerEntry { deferred: true, ..e });
                } else {
                    out.push(Outgoing { to: k, typ: MessageType::Reply });
                    if self.requesting && !e.awaiting {
                        out.push(Outgoing { to: k, typ: MessageType::Request });
                        self.peers.set(k, PeerEntry { need_permission: true, awaiting: true, ..e });
                    } else {
                        self.peers.set(k, PeerEntry { need_permission: true, ..e });
                    }
                }
                assert(out@.len() == 2 ==> out@ =~= one(k, MessageType::Reply) + one(
                    k,
                    MessageType::Request,
                ));
                Ok(out)
            },
            MessageType::Reply => {
                if self.requesting && e.awaiting {
                    self.peers.set(k, PeerEntry { need_permission: false, awaiting: false, ..e });
                    Ok(out)
                } else {
                    Err(ProtocolError::Unexpected(MessageType::Reply))
                }
            },
            MessageType::Terminate => {
                if self.terminated < self.peers.len() {
                    self.terminated = self.terminated + 1;
                    Ok(out)
                } else {
                    Err(ProtocolError::ExtraTerminate)
                }
            },
            _ => Err(ProtocolError::Unexpected(msg.typ)),
        }
    }

    /// Whether the current request has every Reply it waits for.
    pub fn is_granted(&self) -> (r: bool)
        ensures
            r == (self.requesting && all_replied(self.peers@)),
    {
        if !self.requesting {
            return false;
        }
        let mut i: usize = 0;
        while i < self.peers.len()
            invariant
                i <= self.peers@.len(),
                forall|k: int| 0 <= k < i ==> !(#[trigger] self.peers@[k]).awaiting,
            decreases self.peers@.len() - i,
        {
            if self.peers[i].awaiting {
                return false;
            }
            i = i + 1;
        }
        true
    }

    /// Enters the critical section once every Reply has come.
    pub fn enter_cs(&mut self)
        requires
            old(self).wf(),
            old(self).requesting,
            all_replied(old(self).peers@),
        ensures
            final(self).wf(),
            final(self).in_cs,
            final(self).requesting,
            final(self).id == old(self).id,
            final(self).peers@ == old(self).peers@,
            final(self).own_ts == old(self).own_ts,
            final(self).terminated == old(self).terminated,
    {
        self.in_cs = true;
    }

    /// Leaves the critical section and returns, in increasing order, the
    /// peers whose Reply was held back; each now gets it, and must be asked
    /// again before the next entry.
    pub fn exit_cs(&mut self) -> (r: Vec<usize>)
        requires
            old(self).wf(),
        ensures
            final(self).wf(),
            !final(self).requesting,
            !final(self).in_cs,
            final(self).id == old(self).id,
            final(self).own_ts == old(self).own_ts,
            final(self).terminated == old(self).terminated,
            final(self).peers@.len() == old(self).peers@.len(),
            forall|i: int|
                0 <= i < old(self).peers@.len() ==> #[trigger] final(self).peers@[i] == (if old(self).peers@[i].deferred {
                    PeerEntry { need_permission: true, deferred: false, ..old(self).peers@[i] }
                } else {
                    old(self).peers@[i]
                }),
            increasing(r@),
            forall|i: int| 0 <= i < r@.len() ==> #[trigger] r@[i] < old(self).peers@.len() && old(self).peers@[r@[i] as int].deferred,
            forall|k: int|
                0 <= k < old(self).peers@.len() && (#[trigger] old(self).peers@[k]).deferred ==> r@.contains(k as usize),
    {
        self.requesting = false;
        self.in_cs = false;
        let ghost start = old(self).peers@;
        let n = self.peers.len();
        let mut out: Vec<usize> = Vec::new();
        let mut k: usize = 0;
        while k < n
            invariant
                n == start.len() == self.peers@.len(),
                start.len() == old(self).peers@.len(),
                self.id == old(self).id,
                self.terminated == old(self).terminated,
                self.own_ts == old(self).own_ts,
                old(self).wf(),
                !self.requesting,
                !self.in_cs,
                k <= n,
                forall|j: int| k <= j < n ==> #[trigger] self.peers@[j] == start[j],
                forall|j: int|
                    0 <= j < k ==> #[trigger] self.peers@[j] == (if start[j].deferred {
                        PeerEntry { need_permission: true, deferred: false, ..start[j] }
                    } else {
                        start[j]
                    }),
                increasing(out@),
                forall|i: int| 0 <= i < out@.len() ==> #[trigger] out@[i] < k && start[out@[i] as int].deferred,
                forall|j: int| 0 <= j < k && (#[trigger] start[j]).deferred ==> out@.contains(j as usize),
            decreases n - k,
        {
            let ghost before = out@;
            let e = self.peers[k];
            if e.deferred {
                out.push(k);
                self.peers.set(k, PeerEntry { need_permission: true, deferred: false, ..e });
            }
            assert forall|j: int| 0 <= j <= k && (#[trigger] start[j]).deferred implies out@.contains(j as usize) by {
                if j < k {
                    let w = choose|w: int| 0 <= w < before.len() && before[w] == j as usize;
                    assert(out@[w] == j as usize);
                } else {
                    assert(out@[out@.len() - 1] == k);
                }
            }
            k = k + 1;
        }
        out
    }
}

} // verus!

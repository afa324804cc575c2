use vstd::prelude::*;

use crate::clock::{observed, ticked, LamportClock};
use crate::error::ProtocolError;
use crate::message::{one, Message, MessageType, NodeId, Outgoing};
use crate::request::{key_lt, precedes, Request, RequestQueue};

verus! {

/// The side of the largest square grid that `n` nodes fill: the integer
/// square root of `n`.
pub fn grid_side(n: u64) -> (r: u64)
    ensures
        r * r <= n < (r + 1) * (r + 1),
{
    let mut r: u64 = 0;
    while next_square_fits(r, n)
        invariant
            r * r <= n,
            r < 0x1_0000_0000,
        decreases n - r,
    {
        assert(r < n && r + 1 < 0x1_0000_0000) by (nonlinear_arith)
            requires
                (r + 1) * (r + 1) <= n,
                n < 0x1_0000_0000_0000_0000,
        ;
        r = r + 1;
    }
    r
}

/// Whether `(r + 1)^2 <= n`.
fn next_square_fits(r: u64, n: u64) -> (b: bool)
    requires
        r < 0x1_0000_0000,
    ensures
        b == ((r + 1) * (r + 1) <= n),
{
    let s: u128 = r as u128 + 1;
    assert(s * s <= 0x1_0000_0000_0000_0000) by (nonlinear_arith)
        requires
            s <= 0x1_0000_0000,
    ;
    s * s <= n as u128
}

/// Whether `p` shares a row or a column with `id`.
pub open spec fn in_quorum(id: (u64, u64), p: (u64, u64)) -> bool {
    p.0 == id.0 || p.1 == id.1
}

/// The `k`-th index, counting from zero, when `skip` is left out.
pub open spec fn nth_other(k: int, skip: u64) -> u64 {
    (if k < skip {
        k
    } else {
        k + 1
    }) as u64
}

/// A grid node's quorum, in the order its connections are numbered: the
/// node itself, then the rest of its column by row, then the rest of its
/// row by column.
pub open spec fn quorum_of(id: (u64, u64), side: u64) -> Seq<(u64, u64)> {
    seq![id] + Seq::new((side - 1) as nat, |k: int| (nth_other(k, id.0), id.1)) + Seq::new(
        (side - 1) as nat,
        |k: int| (id.0, nth_other(k, id.1)),
    )
}

/// A node of Maekawa's algorithm: its place in a `side` × `side` grid.
#[derive(Debug, Clone, Copy)]
pub struct MaekawaNode {
    pub id: (u64, u64),
    pub side: u64,
}

impl MaekawaNode {
    pub open spec fn wf(&self) -> bool {
        self.id.0 < self.side && self.id.1 < self.side && 2 * self.side <= usize::MAX
    }

    pub fn new(id: (u64, u64), side: u64) -> (r: MaekawaNode)
        requires
            id.0 < side,
            id.1 < side,
            2 * side <= usize::MAX,
        ensures
            r.wf(),
            r.id == id,
            r.side == side,
    {
        MaekawaNode { id, side }
    }

    /// The number of nodes in every quorum: a row and a column that share
    /// one node.
    pub fn quorum_size(&self) -> (r: usize)
        requires
            self.wf(),
        ensures
            r == 2 * self.side - 1,
    {
        (2 * self.side - 1) as usize
    }

    /// The node's quorum, in connection order.
    pub fn quorum(&self) -> (r: Vec<(u64, u64)>)
        requires
            self.wf(),
        ensures
            r@ == quorum_of(self.id, self.side),
            r@.len() == 2 * self.side - 1,
    {
        let (row, col) = self.id;
        let side = self.side;
        let mut out: Vec<(u64, u64)> = Vec::new();
        out.push(self.id);
        let ghost col_part = Seq::new((side - 1) as nat, |k: int| (nth_other(k, row), col));
        let ghost row_part = Seq::new((side - 1) as nat, |k: int| (row, nth_other(k, col)));
        let mut i: u64 = 0;
        while i < side
            invariant
                self.id == (row, col),
                col_part == Seq::new((side - 1) as nat, |k: int| (nth_other(k, row), col)),
                row < side,
                col < side,
                i <= side,
                out@ == seq![(row, col)] + col_part.subrange(
                    0,
                    if i <= row {
                        i as int
                    } else {
                        i - 1
                    },
                ),
            decreases side - i,
        {
            if i != row {
                let ghost k: int = if i < row {
                    i as int
                } else {
                    i - 1
                };
                assert(col_part[k] == (i, col));
                out.push((i, col));
                assert(seq![(row, col)] + col_part.subrange(0, k + 1) =~= out@);
            }
            i = i + 1;
        }
        assert(col_part.subrange(0, side - 1) =~= col_part);
        let ghost head = out@;
        let mut j: u64 = 0;
        while j < side
            invariant
                row_part == Seq::new((side - 1) as nat, |k: int| (row, nth_other(k, col))),
                row < side,
                col < side,
                j <= side,
                out@ == head + row_part.subrange(
                    0,
                    if j <= col {
                        j as int
                    } else {
                        j - 1
                    },
                ),
            decreases side - j,
        {
            if j != col {
                let ghost k: int = if j < col {
                    j as int
                } else {
                    j - 1
                };
                assert(row_part[k] == (row, j));
                out.push((row, j));
                assert(head + row_part.subrange(0, k + 1) =~= out@);
            }
            j = j + 1;
        }
        assert(row_part.subrange(0, side - 1) =~= row_part);
        assert(out@ =~= quorum_of(self.id, side));
        out
    }
}

/// A node's quorum holds exactly the grid nodes in its row or its column.
pub proof fn lemma_quorum_members(id: (u64, u64), side: u64, p: (u64, u64))
    requires
        id.0 < side,
        id.1 < side,
    ensures
        quorum_of(id, side).contains(p) <==> (p.0 < side && p.1 < side && in_quorum(id, p)),
{
    let q = quorum_of(id, side);
    if p.0 < side && p.1 < side && in_quorum(id, p) {
        if p == id {
            assert(q[0] == p);
        } else if p.1 == id.1 {
            let k: int = if p.0 < id.0 {
                p.0 as int
            } else {
                p.0 - 1
            };
            assert(q[1 + k] == p);
        } else {
            let k: int = if p.1 < id.1 {
                p.1 as int
            } else {
                p.1 - 1
            };
            assert(q[side + k] == p);
        }
    }
}

/// Any two grid nodes' quorums meet: the node in the first one's row and
/// the second one's column belongs to both. This is what keeps two nodes
/// out of the critical section at once, since each member grants one
/// request at a time.
pub proof fn lemma_quorums_intersect(a: (u64, u64), b: (u64, u64), side: u64)
    requires
        a.0 < side,
        a.1 < side,
        b.0 < side,
        b.1 < side,
    ensures
        quorum_of(a, side).contains((a.0, b.1)),
        quorum_of(b, side).contains((a.0, b.1)),
{
    lemma_quorum_members(a, side, (a.0, b.1));
    lemma_quorum_members(b, side, (a.0, b.1));
}

/// Mutual exclusion on the grid: given the one node each member's lock is
/// granted to (`holder_of`), two nodes that each hold the grant of every
/// member of their quorum are the same node.
pub proof fn lemma_mutual_exclusion(
    a: (u64, u64),
    b: (u64, u64),
    side: u64,
    holder_of: Map<(u64, u64), (u64, u64)>,
)
    requires
        a.0 < side,
        a.1 < side,
        b.0 < side,
        b.1 < side,
        forall|m: (u64, u64)|
            #[trigger] quorum_of(a, side).contains(m) ==> holder_of.contains_key(m)
                && holder_of[m] == a,
        forall|m: (u64, u64)|
            #[trigger] quorum_of(b, side).contains(m) ==> holder_of.contains_key(m)
                && holder_of[m] == b,
    ensures
        a == b,
{
    lemma_quorums_intersect(a, b, side);
}

/// Where a requester stands with one member of its quorum.
#[derive(Debug, Clone, Copy, PartialEq, Eq, Structural)]
pub enum RequestStatus {
    /// No grant yet, or the grant was given back.
    Pending,
    /// The member replied.
    Granted,
    /// The member granted, then asked whether the grant can be given back.
    Inquiring,
    /// The member said another request goes first.
    Failed,
}

/// The requester may enter the critical section: no member is still
/// pending and none has failed it.
pub open spec fn resolved(v: Seq<RequestStatus>) -> bool {
    forall|i: int|
        0 <= i < v.len() ==> #[trigger] v[i] != RequestStatus::Pending && v[i]
            != RequestStatus::Failed
}

pub open spec fn any_failed(v: Seq<RequestStatus>) -> bool {
    exists|i: int| 0 <= i < v.len() && #[trigger] v[i] == RequestStatus::Failed
}

/// The vote table after a message of kind `typ` from member `slot`.
pub open spec fn votes_after(v: Seq<RequestStatus>, slot: int, typ: MessageType) -> Seq<
    RequestStatus,
> {
    match typ {
        MessageType::Reply => v.update(slot, RequestStatus::Granted),
        MessageType::Failed => Seq::new(
            v.len(),
            |i: int|
                if i == slot {
                    RequestStatus::Failed
                } else if v[i] == RequestStatus::Inquiring {
                    RequestStatus::Pending
                } else {
                    v[i]
                },
        ),
        MessageType::Inquire => if any_failed(v) && v[slot] != RequestStatus::Inquiring {
            v.update(slot, RequestStatus::Pending)
        } else {
            v.update(slot, RequestStatus::Inquiring)
        },
        _ => v,
    }
}

/// Whether the requester yields to member `k` on a message of kind `typ`
/// from member `slot`.
pub open spec fn yields_to(v: Seq<RequestStatus>, slot: int, typ: MessageType, k: int) -> bool {
    match typ {
        MessageType::Failed => k != slot && v[k] == RequestStatus::Inquiring,
        MessageType::Inquire => k == slot && any_failed(v) && v[slot] != RequestStatus::Inquiring,
        _ => false,
    }
}

pub open spec fn increasing(s: Seq<usize>) -> bool {
    forall|i: int, j: int| 0 <= i < j < s.len() ==> #[trigger] s[i] < #[trigger] s[j]
}

/// A requester's votes, one per quorum member in connection order.
pub struct QuorumVotes {
    pub votes: Vec<RequestStatus>,
}

impl QuorumVotes {
    /// A fresh request: every member pending.
    pub fn new(size: usize) -> (r: QuorumVotes)
        ensures
            r.votes@ == Seq::new(size as nat, |i: int| RequestStatus::Pending),
    {
        let mut votes: Vec<RequestStatus> = Vec::new();
        let mut i: usize = 0;
        while i < size
            invariant
                i <= size,
                votes@ == Seq::new(i as nat, |k: int| RequestStatus::Pending),
            decreases size - i,
        {
            votes.push(RequestStatus::Pending);
            i = i + 1;
            assert(votes@ =~= Seq::new(i as nat, |k: int| RequestStatus::Pending));
        }
        QuorumVotes { votes }
    }

    /// Whether the critical section may be entered.
    pub fn is_resolved(&self) -> (r: bool)
        ensures
            r == resolved(self.votes@),
    {
        let mut i: usize = 0;
        while i < self.votes.len()
            invariant
                i <= self.votes@.len(),
                forall|k: int|
                    0 <= k < i ==> #[trigger] self.votes@[k] != RequestStatus::Pending
                        && self.votes@[k] != RequestStatus::Failed,
            decreases self.votes@.len() - i,
        {
            if self.votes[i] == RequestStatus::Pending || self.votes[i] == RequestStatus::Failed {
                return false;
            }
            i = i + 1;
        }
        true
    }

    /// Whether some member has failed the request.
    pub fn has_failed(&self) -> (r: bool)
        ensures
            r == any_failed(self.votes@),
    {
        let mut i: usize = 0;
        while i < self.votes.len()
            invariant
                i <= self.votes@.len(),
                forall|k: int| 0 <= k < i ==> #[trigger] self.votes@[k] != RequestStatus::Failed,
            decreases self.votes@.len() - i,
        {
            if self.votes[i] == RequestStatus::Failed {
                return true;
            }
            i = i + 1;
        }
        false
    }

    /// Takes in a message from member `slot` and returns, in increasing
    /// order, the members to send a Yield to. A Reply grants; a Failed
    /// makes every inquiring member's grant go back; an Inquire is answered
    /// at once with a Yield when some member has failed the request, and is
    /// otherwise held. A requester receives no other kind.
    pub fn on_message(&mut self, slot: usize, typ: MessageType) -> (r: Result<
        Vec<usize>,
        ProtocolError,
    >)
        requires
            slot < old(self).votes@.len(),
        ensures
            match typ {
                MessageType::Reply | MessageType::Failed | MessageType::Inquire => match r {
                    Ok(ys) => {
                        &&& final(self).votes@ == votes_after(old(self).votes@, slot as int, typ)
                        &&& increasing(ys@)
                        &&& forall|k: int|
                            ys@.contains(k as usize) && 0 <= k < old(self).votes@.len()
                                <== (0 <= k < old(self).votes@.len() && yields_to(
                                old(self).votes@,
                                slot as int,
                                typ,
                                k,
                            ))
                        &&& forall|i: int|
                            0 <= i < ys@.len() ==> #[trigger] ys@[i] < old(self).votes@.len()
                                && yields_to(old(self).votes@, slot as int, typ, ys@[i] as int)
                    },
                    Err(_) => false,
                },
                _ => r == Err::<Vec<usize>, ProtocolError>(ProtocolError::Unexpected(typ))
                    && final(self).votes@ == old(self).votes@,
            },
    {
        let ghost v = self.votes@;
        match typ {
            MessageType::Reply => {
                self.votes.set(slot, RequestStatus::Granted);
                Ok(Vec::new())
            },
            MessageType::Failed => {
                let mut ys: Vec<usize> = Vec::new();
                let n = self.votes.len();
                let mut k: usize = 0;
                while k < n
                    invariant
                        n == v.len() == self.votes@.len(),
                        slot < n,
                        k <= n,
                        forall|j: int|
                            k <= j < n ==> #[trigger] self.votes@[j] == v[j],
                        forall|j: int|
                            0 <= j < k ==> #[trigger] self.votes@[j] == votes_after(
                                v,
                                slot as int,
                                typ,
                            )[j] || j == slot,
                        increasing(ys@),
                        forall|i: int|
                            0 <= i < ys@.len() ==> #[trigger] ys@[i] < k && yields_to(
                                v,
                                slot as int,
                                typ,
                                ys@[i] as int,
                            ),
                        forall|j: int|
                            0 <= j < k && yields_to(v, slot as int, typ, j) ==> ys@.contains(
                                j as usize,
                            ),
                        typ == MessageType::Failed,
                    decreases n - k,
                {
                    let ghost before = ys@;
                    if k != slot && self.votes[k] == RequestStatus::Inquiring {
                        ys.push(k);
                        self.votes.set(k, RequestStatus::Pending);
                        assert(ys@[ys@.len() - 1] == k);
                    }
                    assert forall|j: int|
                        0 <= j <= k && yields_to(v, slot as int, typ, j) implies ys@.contains(
                        j as usize,
                    ) by {
                        if j < k {
                            let w = choose|w: int| 0 <= w < before.len() && before[w] == j as usize;
                            assert(ys@[w] == j as usize);
                        } else {
                            assert(ys@[ys@.len() - 1] == k);
                        }
                    }
                    k = k + 1;
                }
                self.votes.set(slot, RequestStatus::Failed);
                assert(self.votes@ =~= votes_after(v, slot as int, typ));
                Ok(ys)
            },
            MessageType::Inquire => {
                let failed = self.has_failed();
                let mut ys: Vec<usize> = Vec::new();
                if failed && self.votes[slot] != RequestStatus::Inquiring {
                    ys.push(slot);
                    self.votes.set(slot, RequestStatus::Pending);
                } else {
                    self.votes.set(slot, RequestStatus::Inquiring);
                }
                assert(ys@.len() == 1 ==> ys@[0] == slot);
                Ok(ys)
            },
            _ => Err(ProtocolError::Unexpected(typ)),
        }
    }
}

/// A request from `pid` at `ts` is refused at once: the holder, or some
/// queued request, goes before it.
pub open spec fn refuses(holder: Request, queue: Seq<Request>, ts: u128, pid: (u64, u64)) -> bool {
    key_lt(holder.ts, holder.pid, ts, pid) || exists|i: int|
        0 <= i < queue.len() && key_lt(#[trigger] queue[i].ts, queue[i].pid, ts, pid)
}

/// What a handler hands back, with the messages seen as a sequence.
pub open spec fn sends(r: Result<Vec<Outgoing>, ProtocolError>) -> Result<
    Seq<Outgoing>,
    ProtocolError,
> {
    match r {
        Ok(v) => Ok(v@),
        Err(e) => Err(e),
    }
}

/// The lock, the inquiry flag and the queue are as they were.
pub open spec fn same_lock(o: Arbiter, f: Arbiter) -> bool {
    f.holder == o.holder && f.inquired == o.inquired && f.queue@ == o.queue@
}

/// The termination count and its target are as they were.
pub open spec fn same_count(o: Arbiter, f: Arbiter) -> bool {
    f.terminated == o.terminated && f.quorum_size == o.quorum_size
}

/// A Request from `pid` at `ts`, on connection `slot`, taken from `o` to `f`.
pub open spec fn request_step(
    o: Arbiter,
    f: Arbiter,
    slot: usize,
    ts: u128,
    pid: (u64, u64),
    out: Seq<Outgoing>,
) -> bool {
    let req = Request { ts, pid, stream: slot };
    match o.holder {
        None => {
            &&& f.holder == Some(req)
            &&& !f.inquired
            &&& f.queue@ == o.queue@
            &&& out == one(slot, MessageType::Reply)
        },
        Some(h) => {
            &&& f.holder == o.holder
            &&& f.queue@.to_multiset() == o.queue@.to_multiset().insert(req)
            &&& if refuses(h, o.queue@, ts, pid) {
                out == one(slot, MessageType::Failed) && f.inquired == o.inquired
            } else if !o.inquired {
                out == one(h.stream, MessageType::Inquire) && f.inquired
            } else {
                out.len() == 0 && f.inquired
            }
        },
    }
}

/// A Release taken from `o` to `f`.
pub open spec fn release_step(o: Arbiter, f: Arbiter, r: Result<Seq<Outgoing>, ProtocolError>) -> bool {
    match o.holder {
        None => r == Err::<Seq<Outgoing>, ProtocolError>(ProtocolError::ReleaseWhileFree)
            && same_lock(o, f),
        Some(_) => match r {
            Ok(out) => {
                &&& !f.inquired
                &&& o.queue@.len() == 0 ==> f.holder is None && f.queue@ == o.queue@ && out.len()
                    == 0
                &&& o.queue@.len() > 0 ==> f.holder == Some(o.queue@[0]) && f.queue@
                    == o.queue@.drop_first() && out == one(o.queue@[0].stream, MessageType::Reply)
            },
            Err(_) => false,
        },
    }
}

/// A Yield from `pid`, with the local clock at `clock`, taken from `o` to `f`.
pub open spec fn yield_step(
    o: Arbiter,
    f: Arbiter,
    clock: u128,
    pid: (u64, u64),
    r: Result<Seq<Outgoing>, ProtocolError>,
) -> bool {
    match o.holder {
        None => r == Err::<Seq<Outgoing>, ProtocolError>(ProtocolError::YieldWhileFree)
            && same_lock(o, f),
        Some(h) => if h.pid != pid {
            r == Ok::<Seq<Outgoing>, ProtocolError>(Seq::empty()) && same_lock(o, f)
        } else if h.ts >= clock {
            r == Err::<Seq<Outgoing>, ProtocolError>(ProtocolError::BadYield) && same_lock(o, f)
        } else {
            match (r, f.holder) {
                (Ok(out), Some(n)) => {
                    let all = o.queue@.to_multiset().insert(h);
                    &&& all.count(n) > 0
                    &&& f.queue@.to_multiset().insert(n) == all
                    &&& forall|x: Request| #[trigger] all.count(x) > 0 ==> !precedes(x, n)
                    &&& !f.inquired
                    &&& out == one(n.stream, MessageType::Reply)
                },
                _ => false,
            }
        },
    }
}

/// The listener side of a grid node: sole owner of the node's lock and of
/// the queue of requests waiting for it.
pub struct Arbiter {
    /// The request the lock is granted to, if any.
    pub holder: Option<Request>,
    /// Whether the holder has been asked to give the grant back.
    pub inquired: bool,
    pub queue: RequestQueue,
    /// Terminate messages counted so far.
    pub terminated: usize,
    /// How many peers send a Terminate at the end of the run.
    pub quorum_size: usize,
}

impl Arbiter {
    pub open spec fn wf(&self) -> bool {
        self.queue.wf() && self.terminated <= self.quorum_size
    }

    /// A free lock with nothing queued.
    pub fn new(quorum_size: usize) -> (r: Arbiter)
        ensures
            r.wf(),
            r.holder is None,
            !r.inquired,
            r.queue@ == Seq::<Request>::empty(),
            r.terminated == 0,
            r.quorum_size == quorum_size,
    {
        Arbiter {
            holder: None,
            inquired: false,
            queue: RequestQueue::new(),
            terminated: 0,
            quorum_size,
        }
    }

    /// Whether every peer has said it is done.
    pub fn is_done(&self) -> (r: bool)
        ensures
            r == (self.terminated == self.quorum_size),
    {
        self.terminated == self.quorum_size
    }

    /// Takes in one message that arrived on connection `slot`, with the
    /// node's clock, and returns the messages to send. A Request moves the
    /// clock past its timestamp. A node's listener receives Request,
    /// Release, Yield and Terminate only, from grid ids.
    pub fn on_message(&mut self, clock: &mut LamportClock, slot: usize, msg: Message) -> (r: Result<
        Vec<Outgoing>,
        ProtocolError,
    >)
        requires
            old(self).wf(),
        ensures
            final(self).wf(),
            final(self).quorum_size == old(self).quorum_size,
            match msg.id {
                NodeId::Flat(_) => r == Err::<Vec<Outgoing>, ProtocolError>(
                    ProtocolError::WrongIdShape,
                ) && same_lock(*old(self), *final(self)) && same_count(*old(self), *final(self))
                    && *final(clock) == *old(clock),
                NodeId::Grid(row, col) => match msg.typ {
                    MessageType::Request => if msg.ts == u128::MAX {
                        r == Err::<Vec<Outgoing>, ProtocolError>(ProtocolError::ClockOverflow)
                            && same_lock(*old(self), *final(self)) && same_count(
                            *old(self),
                            *final(self),
                        ) && *final(clock) == *old(clock)
                    } else {
                        &&& final(clock).value == observed(old(clock).value, msg.ts)
                        &&& same_count(*old(self), *final(self))
                        &&& r matches Ok(out) && request_step(
                            *old(self),
                            *final(self),
                            slot,
                            msg.ts,
                            (row, col),
                            out@,
                        )
                    },
                    MessageType::Release => *final(clock) == *old(clock) && same_count(
                        *old(self),
                        *final(self),
                    ) && release_step(*old(self), *final(self), sends(r)),
                    MessageType::Yield => *final(clock) == *old(clock) && same_count(
                        *old(self),
                        *final(self),
                    ) && yield_step(*old(self), *final(self), old(clock).value, (row, col), sends(r)),
                    MessageType::Terminate => *final(clock) == *old(clock) && same_lock(
                        *old(self),
                        *final(self),
                    ) && if old(self).terminated < old(self).quorum_size {
                        r matches Ok(out) && out@.len() == 0 && final(self).terminated == old(
                            self,
                        ).terminated + 1
                    } else {
                        r == Err::<Vec<Outgoing>, ProtocolError>(ProtocolError::ExtraTerminate)
                            && final(self).terminated == old(self).terminated
                    },
                    _ => r == Err::<Vec<Outgoing>, ProtocolError>(
                        ProtocolError::Unexpected(msg.typ),
                    ) && same_lock(*old(self), *final(self)) && same_count(*old(self), *final(self))
                        && *final(clock) == *old(clock),
                },
            },
            // The lock is granted to one request at a time: a Reply goes
            // out only to the new holder, and only when the lock was free or
            // its holder has just released or yielded it.
            r matches Ok(out) ==> out@.len() <= 1 && forall|i: int|
                0 <= i < out@.len() && (#[trigger] out@[i]).typ == MessageType::Reply ==> (
                final(self).holder matches Some(h) && h.stream == out@[i].to && (old(self).holder is None
                    || msg.typ == MessageType::Release || msg.typ == MessageType::Yield)),
    {
        let (row, col) = match msg.id {
            NodeId::Grid(row, col) => (row, col),
            NodeId::Flat(_) => {
                return Err(ProtocolError::WrongIdShape);
            },
        };
        match msg.typ {
            MessageType::Request => {
                if msg.ts == u128::MAX {
                    return Err(ProtocolError::ClockOverflow);
                }
                clock.observe(msg.ts);
                Ok(self.on_request(slot, msg.ts, (row, col)))
            },
            MessageType::Release => self.on_release(),
            MessageType::Yield => self.on_yield(clock.now(), (row, col)),
            MessageType::Terminate => {
                if self.terminated < self.quorum_size {
                    self.terminated = self.terminated + 1;
                    Ok(Vec::new())
                } else {
                    Err(ProtocolError::ExtraTerminate)
                }
            },
            _ => Err(ProtocolError::Unexpected(msg.typ)),
        }
    }

    /// A Request: grant a free lock; otherwise queue the request, refusing
    /// it at once when something goes before it, and else asking the holder
    /// once whether it can give the grant back.
    fn on_request(&mut self, slot: usize, ts: u128, pid: (u64, u64)) -> (r: Vec<Outgoing>)
        requires
            old(self).wf(),
        ensures
            final(self).wf(),
            same_count(*old(self), *final(self)),
            request_step(*old(self), *final(self), slot, ts, pid, r@),
    {
        let req = Request::new(ts, pid, slot);
        let mut out: Vec<Outgoing> = Vec::new();
        match self.holder {
            None => {
                self.holder = Some(req);
                self.inquired = false;
                out.push(Outgoing { to: slot, typ: MessageType::Reply });
            },
            Some(h) => {
                if h.precedes_key(ts, pid) || self.queue.has_before(ts, pid) {
                    out.push(Outgoing { to: slot, typ: MessageType::Failed });
                } else if !self.inquired {
                    out.push(Outgoing { to: h.stream, typ: MessageType::Inquire });
                    self.inquired = true;
                }
                self.queue.push(req);
            },
        }
        out
    }

    /// A Release: the lock passes to the first queued request, or is freed.
    fn on_release(&mut self) -> (r: Result<Vec<Outgoing>, ProtocolError>)
        requires
            old(self).wf(),
        ensures
            final(self).wf(),
            same_count(*old(self), *final(self)),
            release_step(*old(self), *final(self), sends(r)),
    {
        if self.holder.is_none() {
            return Err(ProtocolError::ReleaseWhileFree);
        }
        self.inquired = false;
        let mut out: Vec<Outgoing> = Vec::new();
        match self.queue.pop() {
            Some(next) => {
                out.push(Outgoing { to: next.stream, typ: MessageType::Reply });
                self.holder = Some(next);
            },
            None => {
                self.holder = None;
            },
        }
        Ok(out)
    }

    /// A Yield from `pid`: when it holds the lock, the grant goes to
    /// whichever of it and the queued requests comes first. A Yield from
    /// another node is left over from an earlier grant and changes nothing.
    fn on_yield(&mut self, clock: u128, pid: (u64, u64)) -> (r: Result<
        Vec<Outgoing>,
        ProtocolError,
    >)
        requires
            old(self).wf(),
        ensures
            final(self).wf(),
            same_count(*old(self), *final(self)),
            yield_step(*old(self), *final(self), clock, pid, sends(r)),
    {
        match self.holder {
            None => Err(ProtocolError::YieldWhileFree),
            Some(h) => {
                if h.pid.0 != pid.0 || h.pid.1 != pid.1 {
                    let out: Vec<Outgoing> = Vec::new();
                    assert(out@ =~= Seq::<Outgoing>::empty());
                    Ok(out)
                } else if h.ts >= clock {
                    Err(ProtocolError::BadYield)
                } else {
                    self.queue.push(h);
                    let ghost q1 = self.queue@;
                    // The queue now holds the old holder, so something comes out.
                    let next = self.queue.pop().unwrap();
                    proof {
                        vstd::seq_lib::to_multiset_contains(q1, q1[0]);
                        assert(q1.contains(q1[0]));
                    }
                    let mut out: Vec<Outgoing> = Vec::new();
                    out.push(Outgoing { to: next.stream, typ: MessageType::Reply });
                    self.holder = Some(next);
                    self.inquired = false;
                    Ok(out)
                }
            },
        }
    }
}

/// One message of kind `typ` to each of the first `size` connections.
pub open spec fn to_all(size: nat, typ: MessageType) -> Seq<Outgoing> {
    Seq::new(size, |i: int| Outgoing { to: i as usize, typ })
}

/// A message of kind `typ` for each of the first `size` connections, in
/// order.
pub fn broadcast(size: usize, typ: MessageType) -> (r: Vec<Outgoing>)
    ensures
        r@ == to_all(size as nat, typ),
{
    let mut out: Vec<Outgoing> = Vec::new();
    let mut i: usize = 0;
    while i < size
        invariant
            i <= size,
            out@ == to_all(i as nat, typ),
        decreases size - i,
    {
        out.push(Outgoing { to: i, typ });
        i = i + 1;
        assert(out@ =~= to_all(i as nat, typ));
    }
    out
}

/// Where a requester is in its run.
#[derive(Debug, Clone, Copy, PartialEq, Eq, Structural)]
pub enum Phase {
    /// Outside the critical section, between requests.
    Idle,
    /// Waiting for its quorum to resolve.
    Waiting,
    /// In the critical section.
    InCs,
    /// All its requests are served and its peers told so.
    Done,
}

/// The requester side of a grid node: it drives a fixed number of entries
/// into the critical section, each through the whole quorum.
pub struct Requester {
    pub quorum_size: usize,
    /// Entries still to make, the current one included once it started.
    pub rounds_left: usize,
    pub phase: Phase,
    pub votes: QuorumVotes,
    /// The timestamp of the current request.
    pub ts: u128,
}

impl Requester {
    pub open spec fn wf(&self) -> bool {
        &&& self.phase == Phase::Waiting ==> self.votes.votes@.len() == self.quorum_size
        &&& (self.phase == Phase::Waiting || self.phase == Phase::InCs) ==> self.rounds_left > 0
    }

    /// A requester that will enter `rounds` times.
    pub fn new(quorum_size: usize, rounds: usize) -> (r: Requester)
        ensures
            r.wf(),
            r.quorum_size == quorum_size,
            r.rounds_left == rounds,
            r.phase == Phase::Idle,
    {
        Requester {
            quorum_size,
            rounds_left: rounds,
            phase: Phase::Idle,
            votes: QuorumVotes::new(0),
            ts: 0,
        }
    }

    /// Starts the next request: a tick of the clock stamps it, every
    /// member's vote is pending, and a Request goes to each member.
    pub fn begin(&mut self, clock: &mut LamportClock) -> (r: Vec<Outgoing>)
        requires
            old(self).wf(),
            old(self).phase == Phase::Idle,
            old(self).rounds_left > 0,
            old(clock).value < u128::MAX,
        ensures
            final(self).wf(),
            final(clock).value == ticked(old(clock).value),
            final(self).ts == final(clock).value,
            final(self).phase == Phase::Waiting,
            final(self).votes.votes@ == Seq::new(old(self).quorum_size as nat, |i: int| RequestStatus::Pending),
            final(self).rounds_left == old(self).rounds_left,
            final(self).quorum_size == old(self).quorum_size,
            r@ == to_all(old(self).quorum_size as nat, MessageType::Request),
    {
        self.ts = clock.tick();
        self.votes = QuorumVotes::new(self.quorum_size);
        self.phase = Phase::Waiting;
        broadcast(self.quorum_size, MessageType::Request)
    }

    /// Takes in a message from member `slot` while waiting and returns the
    /// Yields to send; once no member is pending or failed, the requester
    /// is in the critical section.
    pub fn on_message(&mut self, slot: usize, typ: MessageType) -> (r: Result<Vec<Outgoing>, ProtocolError>)
        requires
            old(self).wf(),
            old(self).phase == Phase::Waiting,
            slot < old(self).quorum_size,
        ensures
            final(self).wf(),
            final(self).rounds_left == old(self).rounds_left,
            final(self).quorum_size == old(self).quorum_size,
            final(self).ts == old(self).ts,
            match typ {
                MessageType::Reply | MessageType::Failed | MessageType::Inquire => match r {
                    Ok(out) => {
                        let v = old(self).votes.votes@;
                        let after = votes_after(v, slot as int, typ);
                        &&& final(self).votes.votes@ == after
                        &&& final(self).phase == (if resolved(after) {
                            Phase::InCs
                        } else {
                            Phase::Waiting
                        })
                        &&& forall|i: int| 0 <= i < out@.len() ==> (#[trigger] out@[i]).typ == MessageType::Yield
                        &&& forall|i: int, j: int| 0 <= i < j < out@.len() ==> (#[trigger] out@[i]).to < (#[trigger] out@[j]).to
                        &&& forall|i: int| 0 <= i < out@.len() ==> yields_to(v, slot as int, typ, (#[trigger] out@[i]).to as int) && out@[i].to < v.len()
                        &&& forall|k: int| 0 <= k < v.len() && yields_to(v, slot as int, typ, k) ==> exists|i: int| 0 <= i < out@.len() && (#[trigger] out@[i]).to == k
                    },
                    Err(_) => false,
                },
                _ => r == Err::<Vec<Outgoing>, ProtocolError>(ProtocolError::Unexpected(typ))
                    && final(self).votes.votes@ == old(self).votes.votes@ && final(self).phase == old(self).phase,
            },
    {
        match self.votes.on_message(slot, typ) {
            Ok(ys) => {
                let mut out: Vec<Outgoing> = Vec::new();
                let mut i: usize = 0;
                while i < ys.len()
                    invariant
                        i <= ys@.len(),
                        out@.len() == i,
                        forall|j: int| 0 <= j < i ==> #[trigger] out@[j] == (Outgoing { to: ys@[j], typ: MessageType::Yield }),
                    decreases ys@.len() - i,
                {
                    out.push(Outgoing { to: ys[i], typ: MessageType::Yield });
                    i = i + 1;
                }
                proof {
                    let v = old(self).votes.votes@;
                    assert forall|k: int| 0 <= k < v.len() && yields_to(v, slot as int, typ, k) implies exists|i: int| 0 <= i < out@.len() && (#[trigger] out@[i]).to == k by {
                        assert(ys@.contains(k as usize));
                        let w = choose|w: int| 0 <= w < ys@.len() && ys@[w] == k as usize;
                        assert(out@[w].to == k);
                    }
                }
                if self.votes.is_resolved() {
                    self.phase = Phase::InCs;
                }
                Ok(out)
            },
            Err(e) => Err(e),
        }
    }

    /// Leaves the critical section: a Release goes to each member, and one
    /// entry fewer is left.
    pub fn release(&mut self) -> (r: Vec<Outgoing>)
        requires
            old(self).wf(),
            old(self).phase == Phase::InCs,
        ensures
            final(self).wf(),
            final(self).phase == Phase::Idle,
            final(self).rounds_left == old(self).rounds_left - 1,
            final(self).quorum_size == old(self).quorum_size,
            r@ == to_all(old(self).quorum_size as nat, MessageType::Release),
    {
        self.phase = Phase::Idle;
        self.rounds_left = self.rounds_left - 1;
        broadcast(self.quorum_size, MessageType::Release)
    }

    /// Ends the run once every entry is made: a Terminate goes to each member.
    pub fn finish(&mut self) -> (r: Vec<Outgoing>)
        requires
            old(self).wf(),
            old(self).phase == Phase::Idle,
            old(self).rounds_left == 0,
        ensures
            final(self).wf(),
            final(self).phase == Phase::Done,
            final(self).quorum_size == old(self).quorum_size,
            r@ == to_all(old(self).quorum_size as nat, MessageType::Terminate),
    {
        self.phase = Phase::Done;
        broadcast(self.quorum_size, MessageType::Terminate)
    }
}

} // verus!

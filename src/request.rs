use vstd::prelude::*;
use vstd::seq_lib::{to_multiset_insert, to_multiset_len, to_multiset_remove, to_multiset_contains};

verus! {

/// A pending request for a grid node's lock: the requester's timestamp and
/// grid id, and the index of the connection on which it is answered.
#[derive(Debug, Clone, Copy)]
pub struct Request {
    pub ts: u128,
    pub pid: (u64, u64),
    pub stream: usize,
}

/// The total order on (timestamp, id) keys: earlier timestamp first, then
/// row, then column.
pub open spec fn key_lt(ts1: u128, pid1: (u64, u64), ts2: u128, pid2: (u64, u64)) -> bool {
    ts1 < ts2 || (ts1 == ts2 && (pid1.0 < pid2.0 || (pid1.0 == pid2.0 && pid1.1 < pid2.1)))
}

/// `a` has priority over `b`.
pub open spec fn precedes(a: Request, b: Request) -> bool {
    key_lt(a.ts, a.pid, b.ts, b.pid)
}

pub open spec fn same_key(a: Request, b: Request) -> bool {
    a.ts == b.ts && a.pid == b.pid
}

/// No element of `s` has priority over one before it.
pub open spec fn sorted(s: Seq<Request>) -> bool {
    forall|i: int, j: int| 0 <= i < j < s.len() ==> !precedes(#[trigger] s[j], #[trigger] s[i])
}

/// No two elements of `s` share a (timestamp, id) key.
pub open spec fn distinct_keys(s: Seq<Request>) -> bool {
    forall|i: int, j: int| 0 <= i < j < s.len() ==> !same_key(#[trigger] s[i], #[trigger] s[j])
}

impl Request {
    pub fn new(ts: u128, pid: (u64, u64), stream: usize) -> (r: Request)
        ensures
            r == (Request { ts, pid, stream }),
    {
        Request { ts, pid, stream }
    }

    /// Whether this request has priority over the key (`ts`, `pid`).
    pub fn precedes_key(&self, ts: u128, pid: (u64, u64)) -> (r: bool)
        ensures
            r == key_lt(self.ts, self.pid, ts, pid),
    {
        self.ts < ts || (self.ts == ts && (self.pid.0 < pid.0 || (self.pid.0 == pid.0
            && self.pid.1 < pid.1)))
    }

    /// Whether this request has priority over `other`.
    pub fn precedes(&self, other: &Request) -> (r: bool)
        ensures
            r == precedes(*self, *other),
    {
        self.precedes_key(other.ts, other.pid)
    }
}

/// Two requests are equal when their keys are; the connection is not compared.
impl PartialEq for Request {
    fn eq(&self, other: &Request) -> (r: bool) {
        self.ts == other.ts && self.pid.0 == other.pid.0 && self.pid.1 == other.pid.1
    }
}

impl vstd::std_specs::cmp::PartialEqSpecImpl for Request {
    open spec fn obeys_eq_spec() -> bool {
        true
    }

    open spec fn eq_spec(&self, other: &Request) -> bool {
        same_key(*self, *other)
    }
}

/// Pending requests, kept in priority order: the head is always the
/// request with the smallest (timestamp, id) key.
pub struct RequestQueue {
    items: Vec<Request>,
}

impl View for RequestQueue {
    type V = Seq<Request>;

    closed spec fn view(&self) -> Seq<Request> {
        self.items@
    }
}

impl RequestQueue {
    pub open spec fn wf(&self) -> bool {
        sorted(self@)
    }

    pub fn new() -> (r: RequestQueue)
        ensures
            r.wf(),
            r@ == Seq::<Request>::empty(),
    {
        RequestQueue { items: Vec::new() }
    }

    pub fn len(&self) -> (r: usize)
        ensures
            r == self@.len(),
    {
        self.items.len()
    }

    pub fn is_empty(&self) -> (r: bool)
        ensures
            r == (self@.len() == 0),
    {
        self.items.len() == 0
    }

    /// Adds a request; the queue keeps exactly the old requests and this one,
    /// in priority order.
    pub fn push(&mut self, r: Request)
        requires
            old(self).wf(),
        ensures
            final(self).wf(),
            final(self)@.to_multiset() == old(self)@.to_multiset().insert(r),
            final(self)@.len() == old(self)@.len() + 1,
    {
        let ghost s = self@;
        let mut p: usize = 0;
        let n = self.items.len();
        while p < n && !r.precedes(&self.items[p])
            invariant
                self@ == s,
                n == s.len(),
                sorted(s),
                p <= n,
                forall|k: int| 0 <= k < p ==> !precedes(r, #[trigger] s[k]),
            decreases n - p,
        {
            p = p + 1;
        }
        self.items.insert(p, r);
        proof {
            to_multiset_insert(s, p as int, r);
            let t = s.insert(p as int, r);
            assert(self@ == t);
            assert forall|i: int, j: int| 0 <= i < j < t.len() implies !precedes(
                #[trigger] t[j],
                #[trigger] t[i],
            ) by {
                if j < p {
                } else if j == p {
                } else if i < p {
                    assert(!precedes(r, s[i]));
                    assert(!precedes(s[j - 1], s[i]));
                } else if i == p {
                    assert(precedes(r, s[p as int]));
                    assert(!precedes(s[j - 1], s[p as int]) || j - 1 == p);
                } else {
                }
            }
        }
    }

    /// The request with priority over all others, if any.
    pub fn peek(&self) -> (r: Option<Request>)
        requires
            self.wf(),
        ensures
            self@.len() == 0 ==> r is None,
            self@.len() > 0 ==> r == Some(self@[0]),
    {
        if self.items.len() == 0 {
            None
        } else {
            Some(self.items[0])
        }
    }

    /// Removes and returns the head: no queued request has priority over it.
    pub fn pop(&mut self) -> (r: Option<Request>)
        requires
            old(self).wf(),
        ensures
            final(self).wf(),
            old(self)@.len() == 0 ==> r is None && final(self)@ == old(self)@,
            old(self)@.len() > 0 ==> r == Some(old(self)@[0]) && final(self)@ == old(
                self,
            )@.drop_first() && forall|i: int|
                0 <= i < old(self)@.len() ==> !precedes(#[trigger] old(self)@[i], old(self)@[0]),
            old(self)@.len() > 0 ==> final(self)@.to_multiset().insert(old(self)@[0]) == old(
                self,
            )@.to_multiset() && forall|x: Request|
                #[trigger] old(self)@.to_multiset().count(x) > 0 ==> !precedes(x, old(self)@[0]),
    {
        if self.items.len() == 0 {
            None
        } else {
            let ghost s = self@;
            let h = self.items.remove(0);
            assert(self@ =~= s.drop_first());
            proof {
                assert forall|i: int| 0 <= i < s.len() implies !precedes(#[trigger] s[i], s[0]) by {
                    if i > 0 {
                        assert(!precedes(s[i], s[0]));
                    }
                }
                to_multiset_remove(s, 0);
                assert(s.remove(0) =~= s.drop_first());
                to_multiset_contains(s, s[0]);
                assert(s.contains(s[0]));
                assert(self@.to_multiset().insert(s[0]) =~= s.to_multiset());
                assert forall|x: Request| #[trigger] s.to_multiset().count(x) > 0 implies !precedes(
                    x,
                    s[0],
                ) by {
                    to_multiset_contains(s, x);
                    let i = choose|i: int| 0 <= i < s.len() && s[i] == x;
                    assert(!precedes(s[i], s[0]));
                }
            }
            Some(h)
        }
    }

    /// Whether some queued request has priority over the key (`ts`, `pid`).
    pub fn has_before(&self, ts: u128, pid: (u64, u64)) -> (r: bool)
        requires
            self.wf(),
        ensures
            r == exists|i: int| 0 <= i < self@.len() && key_lt(#[trigger] self@[i].ts, self@[i].pid, ts, pid),
    {
        if self.items.len() == 0 {
            false
        } else {
            let h = self.items[0];
            proof {
                if !key_lt(h.ts, h.pid, ts, pid) {
                    assert forall|i: int| 0 <= i < self@.len() implies !key_lt(
                        #[trigger] self@[i].ts,
                        self@[i].pid,
                        ts,
                        pid,
                    ) by {
                        if i > 0 {
                            assert(!precedes(self@[i], self@[0]));
                        }
                    }
                }
            }
            h.precedes_key(ts, pid)
        }
    }
}

/// The order in which requests leave a queue depends only on which requests
/// it holds, not on the order they were pushed: two queues in priority order
/// that hold the same requests, no two with the same (timestamp, id) key,
/// are the same sequence, and so pop the same requests in the same order.
pub proof fn lemma_pop_order_determined(s1: Seq<Request>, s2: Seq<Request>)
    requires
        sorted(s1),
        sorted(s2),
        distinct_keys(s1),
        s1.to_multiset() == s2.to_multiset(),
    ensures
        s1 == s2,
    decreases s1.len(),
{
    to_multiset_len(s1);
    to_multiset_len(s2);
    if s1.len() > 0 {
        let a = s1[0];
        let b = s2[0];
        to_multiset_contains(s1, a);
        to_multiset_contains(s2, a);
        to_multiset_contains(s1, b);
        to_multiset_contains(s2, b);
        assert(s1.contains(a));
        assert(s2.contains(b));
        let j = choose|j: int| 0 <= j < s2.len() && s2[j] == a;
        let k = choose|k: int| 0 <= k < s1.len() && s1[k] == b;
        assert(!precedes(s2[j], s2[0]) || j == 0);
        assert(!precedes(s1[k], s1[0]) || k == 0);
        if k != 0 {
            assert(!same_key(s1[0], s1[k]));
        }
        assert(a == b);
        to_multiset_remove(s1, 0);
        to_multiset_remove(s2, 0);
        assert(s1.remove(0) =~= s1.drop_first());
        assert(s2.remove(0) =~= s2.drop_first());
        let t1 = s1.drop_first();
        let t2 = s2.drop_first();
        assert(sorted(t1)) by {
            assert forall|i: int, j: int| 0 <= i < j < t1.len() implies !precedes(
                #[trigger] t1[j],
                #[trigger] t1[i],
            ) by {
                assert(!precedes(s1[j + 1], s1[i + 1]));
            }
        }
        assert(sorted(t2)) by {
            assert forall|i: int, j: int| 0 <= i < j < t2.len() implies !precedes(
                #[trigger] t2[j],
                #[trigger] t2[i],
            ) by {
                assert(!precedes(s2[j + 1], s2[i + 1]));
            }
        }
        assert(distinct_keys(t1)) by {
            assert forall|i: int, j: int| 0 <= i < j < t1.len() implies !same_key(
                #[trigger] t1[i],
                #[trigger] t1[j],
            ) by {
                assert(!same_key(s1[i + 1], s1[j + 1]));
            }
        }
        lemma_pop_order_determined(t1, t2);
        assert forall|i: int| 0 <= i < s1.len() implies s1[i] == s2[i] by {
            if i > 0 {
                assert(s1[i] == t1[i - 1] && s2[i] == t2[i - 1]);
            }
        }
        assert(s1 =~= s2);
    } else {
        assert(s1 =~= s2);
    }
}

} // verus!

use quorum_mutex::clock::LamportClock;
use quorum_mutex::error::ProtocolError;
use quorum_mutex::maekawa::{grid_side, Arbiter, MaekawaNode, Phase, QuorumVotes, RequestStatus, Requester};
use quorum_mutex::message::{Message, MessageType, Outgoing};
use std::collections::VecDeque;

fn req(id: (u64, u64), ts: u128) -> Message {
    Message::new_maekawa(id, MessageType::Request, ts)
}

#[test]
fn grid_side_is_integer_square_root() {
    assert_eq!(grid_side(0), 0);
    assert_eq!(grid_side(1), 1);
    assert_eq!(grid_side(4), 2);
    assert_eq!(grid_side(8), 2);
    assert_eq!(grid_side(9), 3);
    assert_eq!(grid_side(u64::MAX), 0xFFFF_FFFF);
}

#[test]
fn quorum_is_row_and_column() {
    let node = MaekawaNode::new((1, 2), 3);
    assert_eq!(node.quorum_size(), 5);
    assert_eq!(node.quorum(), vec![(1, 2), (0, 2), (2, 2), (1, 0), (1, 1)]);
    let corner = MaekawaNode::new((0, 0), 2);
    assert_eq!(corner.quorum(), vec![(0, 0), (1, 0), (0, 1)]);
}

#[test]
fn votes_reply_failed_inquire() {
    let mut v = QuorumVotes::new(3);
    assert!(!v.is_resolved());
    assert_eq!(v.on_message(0, MessageType::Reply), Ok(vec![]));
    assert_eq!(v.on_message(1, MessageType::Inquire), Ok(vec![]));
    assert_eq!(v.votes[1], RequestStatus::Inquiring);
    // A Failed gives back every inquired grant.
    assert_eq!(v.on_message(2, MessageType::Failed), Ok(vec![1]));
    assert_eq!(v.votes, vec![RequestStatus::Granted, RequestStatus::Pending, RequestStatus::Failed]);
    assert!(v.has_failed());
    // With a failure on record an Inquire is answered at once.
    assert_eq!(v.on_message(0, MessageType::Inquire), Ok(vec![0]));
    assert_eq!(v.votes[0], RequestStatus::Pending);
    assert_eq!(v.on_message(0, MessageType::Reply), Ok(vec![]));
    assert_eq!(v.on_message(1, MessageType::Reply), Ok(vec![]));
    assert!(!v.is_resolved());
    assert_eq!(v.on_message(2, MessageType::Reply), Ok(vec![]));
    assert!(v.is_resolved());
}

#[test]
fn votes_inquiring_counts_as_held() {
    let mut v = QuorumVotes::new(2);
    v.on_message(0, MessageType::Reply).unwrap();
    v.on_message(1, MessageType::Reply).unwrap();
    v.on_message(1, MessageType::Inquire).unwrap();
    assert!(v.is_resolved());
}

#[test]
fn votes_reject_other_kinds() {
    let mut v = QuorumVotes::new(2);
    for t in [MessageType::Request, MessageType::Release, MessageType::Yield, MessageType::Terminate] {
        assert_eq!(v.on_message(0, t), Err(ProtocolError::Unexpected(t)));
    }
    assert_eq!(v.votes, vec![RequestStatus::Pending; 2]);
}

#[test]
fn arbiter_grants_free_lock() {
    let mut a = Arbiter::new(3);
    let mut c = LamportClock::new();
    let out = a.on_message(&mut c, 2, req((0, 1), 7)).unwrap();
    assert_eq!(out, vec![Outgoing { to: 2, typ: MessageType::Reply }]);
    assert_eq!(c.now(), 8);
    assert_eq!(a.holder.map(|h| (h.ts, h.pid, h.stream)), Some((7, (0, 1), 2)));
}

#[test]
fn arbiter_fails_later_request_and_inquires_once() {
    let mut a = Arbiter::new(3);
    let mut c = LamportClock::new();
    a.on_message(&mut c, 0, req((0, 0), 5)).unwrap();
    // Later than the holder: refused.
    let out = a.on_message(&mut c, 1, req((1, 0), 9)).unwrap();
    assert_eq!(out, vec![Outgoing { to: 1, typ: MessageType::Failed }]);
    // Earlier than the holder and than all queued: the holder is asked.
    let out = a.on_message(&mut c, 2, req((0, 1), 3)).unwrap();
    assert_eq!(out, vec![Outgoing { to: 0, typ: MessageType::Inquire }]);
    assert!(a.inquired);
    // Earlier still: no second inquiry.
    let out = a.on_message(&mut c, 3, req((1, 1), 1)).unwrap();
    assert_eq!(out, vec![]);
    assert_eq!(a.queue.len(), 3);
}

#[test]
fn arbiter_fails_request_behind_queued_one() {
    let mut a = Arbiter::new(3);
    let mut c = LamportClock::new();
    a.on_message(&mut c, 0, req((0, 0), 5)).unwrap();
    a.on_message(&mut c, 1, req((1, 0), 2)).unwrap();
    // Before the holder, but behind the queued (2, (1, 0)).
    let out = a.on_message(&mut c, 2, req((0, 1), 4)).unwrap();
    assert_eq!(out, vec![Outgoing { to: 2, typ: MessageType::Failed }]);
}

#[test]
fn arbiter_release_passes_lock() {
    let mut a = Arbiter::new(3);
    let mut c = LamportClock::new();
    a.on_message(&mut c, 0, req((0, 0), 5)).unwrap();
    a.on_message(&mut c, 1, req((1, 0), 8)).unwrap();
    a.on_message(&mut c, 2, req((0, 1), 6)).unwrap();
    let rel = Message::new_maekawa((0, 0), MessageType::Release, 20);
    let out = a.on_message(&mut c, 0, rel).unwrap();
    assert_eq!(out, vec![Outgoing { to: 2, typ: MessageType::Reply }]);
    assert!(!a.inquired);
    let rel = Message::new_maekawa((0, 1), MessageType::Release, 21);
    assert_eq!(a.on_message(&mut c, 2, rel).unwrap(), vec![Outgoing { to: 1, typ: MessageType::Reply }]);
    let rel = Message::new_maekawa((1, 0), MessageType::Release, 22);
    assert_eq!(a.on_message(&mut c, 1, rel).unwrap(), vec![]);
    assert!(a.holder.is_none());
    assert_eq!(a.on_message(&mut c, 1, rel), Err(ProtocolError::ReleaseWhileFree));
}

#[test]
fn arbiter_yield_regrants() {
    let mut a = Arbiter::new(3);
    let mut c = LamportClock::new();
    a.on_message(&mut c, 0, req((0, 0), 5)).unwrap();
    a.on_message(&mut c, 1, req((1, 0), 2)).unwrap();
    let y = Message::new_maekawa((0, 0), MessageType::Yield, 9);
    let out = a.on_message(&mut c, 0, y).unwrap();
    assert_eq!(out, vec![Outgoing { to: 1, typ: MessageType::Reply }]);
    assert_eq!(a.holder.map(|h| h.pid), Some((1, 0)));
    assert_eq!(a.queue.peek().map(|h| h.pid), Some((0, 0)));
    // The old holder gets the lock back on release.
    let rel = Message::new_maekawa((1, 0), MessageType::Release, 10);
    assert_eq!(a.on_message(&mut c, 1, rel).unwrap(), vec![Outgoing { to: 0, typ: MessageType::Reply }]);
}

#[test]
fn arbiter_yield_with_empty_queue_regrants_holder() {
    let mut a = Arbiter::new(3);
    let mut c = LamportClock::new();
    a.on_message(&mut c, 4, req((0, 0), 5)).unwrap();
    let y = Message::new_maekawa((0, 0), MessageType::Yield, 9);
    assert_eq!(a.on_message(&mut c, 4, y).unwrap(), vec![Outgoing { to: 4, typ: MessageType::Reply }]);
    assert_eq!(a.holder.map(|h| h.pid), Some((0, 0)));
}

#[test]
fn arbiter_yield_errors() {
    let mut a = Arbiter::new(3);
    let mut c = LamportClock::new();
    let y = Message::new_maekawa((0, 0), MessageType::Yield, 9);
    assert_eq!(a.on_message(&mut c, 0, y), Err(ProtocolError::YieldWhileFree));
    a.on_message(&mut c, 0, req((0, 0), 5)).unwrap();
    // From another node: left over, ignored.
    let other = Message::new_maekawa((1, 1), MessageType::Yield, 9);
    assert_eq!(a.on_message(&mut c, 1, other), Ok(vec![]));
    // The holder's timestamp must precede the clock.
    let mut behind = LamportClock { value: 5 };
    assert_eq!(a.on_message(&mut behind, 0, y), Err(ProtocolError::BadYield));
}

#[test]
fn arbiter_other_errors() {
    let mut a = Arbiter::new(1);
    let mut c = LamportClock::new();
    let flat = Message::new_rc(1, MessageType::Request, 1);
    assert_eq!(a.on_message(&mut c, 0, flat), Err(ProtocolError::WrongIdShape));
    for t in [MessageType::Reply, MessageType::Failed, MessageType::Inquire] {
        let m = Message::new_maekawa((0, 0), t, 1);
        assert_eq!(a.on_message(&mut c, 0, m), Err(ProtocolError::Unexpected(t)));
    }
    assert_eq!(a.on_message(&mut c, 0, req((0, 0), u128::MAX)), Err(ProtocolError::ClockOverflow));
    assert_eq!(c.now(), 0);
}

#[test]
fn arbiter_counts_terminations() {
    let mut a = Arbiter::new(3);
    let mut c = LamportClock::new();
    let t = Message::new_maekawa((0, 0), MessageType::Terminate, 1);
    for i in 0..3 {
        assert!(!a.is_done());
        assert_eq!(a.terminated, i);
        assert_eq!(a.on_message(&mut c, 0, t), Ok(vec![]));
    }
    assert!(a.is_done());
    assert_eq!(a.on_message(&mut c, 0, t), Err(ProtocolError::ExtraTerminate));
}

/// Runs three requesters of a 2 × 2 grid, (0, 0), (1, 1) and (0, 1), whose
/// quorums overlap pairwise, with timestamps 1 < 2 < 3. Every request
/// reaches the listeners before anything else moves, in the order given.
/// Returns the order in which the nodes entered the critical section, and
/// how many Failed, Inquire and Yield messages were sent.
fn simulate(arrival: [(u64, u64); 3]) -> (Vec<(u64, u64)>, usize) {
    let side = 2u64;
    let ids: Vec<(u64, u64)> = vec![(0, 0), (0, 1), (1, 0), (1, 1)];
    let idx = |p: (u64, u64)| ids.iter().position(|&q| q == p).unwrap();
    let stamps = [((0u64, 0u64), 1u128), ((1, 1), 2), ((0, 1), 3)];
    let mut clocks: Vec<LamportClock> = (0..4).map(|_| LamportClock::new()).collect();
    let mut arbiters: Vec<Arbiter> = ids
        .iter()
        .map(|&p| Arbiter::new(MaekawaNode::new(p, side).quorum_size()))
        .collect();
    // to_arb[m][a]: from requester a to listener m; to_req[a][m]: back.
    let mut to_arb: Vec<Vec<VecDeque<Message>>> = vec![vec![VecDeque::new(); 4]; 4];
    let mut to_req: Vec<Vec<VecDeque<Message>>> = vec![vec![VecDeque::new(); 4]; 4];
    let mut votes: Vec<Option<QuorumVotes>> = (0..4).map(|_| None).collect();
    let mut entered: Vec<(u64, u64)> = vec![];
    let mut control_msgs = 0;

    for &(p, ts) in &stamps {
        let a = idx(p);
        clocks[a].value = ts - 1;
        assert_eq!(clocks[a].tick(), ts);
        votes[a] = Some(QuorumVotes::new(MaekawaNode::new(p, side).quorum_size()));
    }
    for m in 0..4 {
        for &p in &arrival {
            let a = idx(p);
            if MaekawaNode::new(p, side).quorum().contains(&ids[m]) {
                let ts = clocks[a].now();
                let out = arbiters[m].on_message(&mut clocks[m], a, req(p, ts)).unwrap();
                for o in out {
                    if o.typ != MessageType::Reply {
                        control_msgs += 1;
                    }
                    let ts = clocks[m].now();
                    to_req[o.to][m].push_back(Message::new_maekawa(ids[m], o.typ, ts));
                }
            }
        }
    }

    let mut holding: Option<usize> = None;
    let mut steps = 0;
    loop {
        steps += 1;
        assert!(steps < 10_000, "no progress");
        let mut moved = false;
        // The node in the critical section leaves it one step after entering.
        if let Some(a) = holding.take() {
            moved = true;
            for q in MaekawaNode::new(ids[a], side).quorum() {
                let ts = clocks[a].now();
                to_arb[idx(q)][a].push_back(Message::new_maekawa(ids[a], MessageType::Release, ts));
            }
        }
        for m in 0..4 {
            for a in 0..4 {
                if let Some(msg) = to_arb[m][a].pop_front() {
                    moved = true;
                    let out = arbiters[m].on_message(&mut clocks[m], a, msg).unwrap();
                    for o in out {
                        if o.typ != MessageType::Reply {
                            control_msgs += 1;
                        }
                        let ts = clocks[m].now();
                        to_req[o.to][m].push_back(Message::new_maekawa(ids[m], o.typ, ts));
                    }
                }
            }
        }
        for &(p, _) in &stamps {
            let a = idx(p);
            let quorum = MaekawaNode::new(p, side).quorum();
            for m in 0..4 {
                // Once its one request is served, a requester reads no more.
                let v = match votes[a].as_mut() {
                    Some(v) => v,
                    None => break,
                };
                if let Some(msg) = to_req[a][m].pop_front() {
                    moved = true;
                    let slot = quorum.iter().position(|&q| q == ids[m]).unwrap();
                    for y in v.on_message(slot, msg.typ).unwrap() {
                        control_msgs += 1;
                        let ts = clocks[a].now();
                        to_arb[idx(quorum[y])][a].push_back(Message::new_maekawa(p, MessageType::Yield, ts));
                    }
                    if v.is_resolved() {
                        // Entering the critical section: nobody else is in it.
                        assert_eq!(holding, None);
                        holding = Some(a);
                        entered.push(p);
                        votes[a] = None;
                    }
                }
            }
        }
        if !moved {
            break;
        }
    }
    assert!(votes.iter().all(|v| v.is_none()), "a requester is still waiting");
    for a in &arbiters {
        assert!(a.holder.is_none());
        assert!(a.queue.is_empty());
    }
    (entered, control_msgs)
}

#[test]
fn three_nodes_lowest_timestamp_wins() {
    let (order, control) = simulate([(0, 0), (1, 1), (0, 1)]);
    assert_eq!(order, vec![(0, 0), (1, 1), (0, 1)]);
    assert!(control > 0);
}

#[test]
fn three_nodes_contend_and_all_enter() {
    let (order, control) = simulate([(0, 1), (0, 0), (1, 1)]);
    assert_eq!(order.len(), 3);
    assert_eq!(order[0], (0, 1));
    assert!(control > 0);
}

#[test]
fn requester_drives_rounds() {
    let mut r = Requester::new(3, 2);
    let mut c = LamportClock { value: 4 };
    let reqs = r.begin(&mut c);
    assert_eq!(r.ts, 5);
    assert_eq!(r.phase, Phase::Waiting);
    assert_eq!(
        reqs,
        (0..3).map(|to| Outgoing { to, typ: MessageType::Request }).collect::<Vec<_>>()
    );
    assert_eq!(r.on_message(0, MessageType::Reply), Ok(vec![]));
    assert_eq!(r.on_message(2, MessageType::Inquire), Ok(vec![]));
    assert_eq!(
        r.on_message(1, MessageType::Failed),
        Ok(vec![Outgoing { to: 2, typ: MessageType::Yield }])
    );
    assert_eq!(r.on_message(1, MessageType::Release), Err(ProtocolError::Unexpected(MessageType::Release)));
    r.on_message(1, MessageType::Reply).unwrap();
    assert_eq!(r.phase, Phase::Waiting);
    r.on_message(2, MessageType::Reply).unwrap();
    assert_eq!(r.phase, Phase::InCs);
    let rel = r.release();
    assert_eq!(rel.len(), 3);
    assert!(rel.iter().all(|o| o.typ == MessageType::Release));
    assert_eq!(r.rounds_left, 1);
    assert_eq!(r.phase, Phase::Idle);
    r.begin(&mut c);
    assert_eq!(r.ts, 6);
    for s in 0..3 {
        r.on_message(s, MessageType::Reply).unwrap();
    }
    r.release();
    assert_eq!(r.rounds_left, 0);
    let term = r.finish();
    assert_eq!(term, (0..3).map(|to| Outgoing { to, typ: MessageType::Terminate }).collect::<Vec<_>>());
    assert_eq!(r.phase, Phase::Done);
}

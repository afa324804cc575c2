//! Distributed mutual exclusion: Maekawa's grid-quorum algorithm and a
//! full-quorum (Ricart–Agrawala style) variant, as pure state machines over
//! a Lamport clock, a priority queue of pending requests and a fixed binary
//! wire format. Transport, timing and logging are left to the caller.
use vstd::prelude::*;

pub mod bytes;
pub mod clock;
pub mod error;
pub mod maekawa;
pub mod message;
pub mod rc;
pub mod request;

verus! {

/// Which of the two simulated delays a requester is in: thinking outside
/// the critical section, or holding it.
#[derive(Debug, Clone, Copy, PartialEq, Eq, Structural)]
pub enum Region {
    Out,
    In,
}

} // verus!

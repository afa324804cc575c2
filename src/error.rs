use vstd::prelude::*;

use crate::message::MessageType;

verus! {

/// A message that has no transition in the receiver's current state. The
/// protocol treats each of these as fatal for the node.
#[derive(Debug, Clone, Copy, PartialEq, Eq, Structural)]
pub enum ProtocolError {
    /// A kind that this role never receives.
    Unexpected(MessageType),
    /// The sender's identity is not in the form this variant uses.
    WrongIdShape,
    /// A Release arrived while nobody held the lock.
    ReleaseWhileFree,
    /// A Yield arrived while nobody held the lock.
    YieldWhileFree,
    /// The holder yielded, but its timestamp does not precede the local clock.
    BadYield,
    /// A timestamp so large that the clock cannot move past it.
    ClockOverflow,
    /// More Terminate messages than peers that can send one.
    ExtraTerminate,
    /// A sender outside the node's peers.
    UnknownPeer,
}

} // verus!

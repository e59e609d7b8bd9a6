//! The simplified connection-close state machine: a coarse approximation of
//! TCP teardown used only to decide when a connection's data is ready to
//! deliver. It does not distinguish initiator and responder FIN and does not
//! model the handshake.

use vstd::prelude::*;

verus! {

/// How far the connection has progressed towards closing.
#[derive(PartialEq, Eq, Structural, Clone, Copy, Debug)]
pub enum CloseState {
    Established,
    FinWait1,
    FinWait2,
    TimeWait,
    Closed,
}

/// The one transition a segment with the given flags causes from `s`:
/// Established moves to FinWait1 on the first FIN (from either direction) and
/// otherwise stays; FinWait1 and FinWait2 advance on any segment; TimeWait
/// closes on an ACK-bearing segment and otherwise stays; Closed is final.
pub open spec fn close_step(s: CloseState, fin: bool, ack: bool) -> CloseState {
    match s {
        CloseState::Established => if fin {
            CloseState::FinWait1
        } else {
            CloseState::Established
        },
        CloseState::FinWait1 => CloseState::FinWait2,
        CloseState::FinWait2 => CloseState::TimeWait,
        CloseState::TimeWait => if ack {
            CloseState::Closed
        } else {
            CloseState::TimeWait
        },
        CloseState::Closed => CloseState::Closed,
    }
}

/// Apply one segment's FIN/ACK flags to the close state.
pub fn step_close_state(s: CloseState, fin: bool, ack: bool) -> (r: CloseState)
    ensures
        r == close_step(s, fin, ack),
{
    match s {
        CloseState::Established => if fin {
            CloseState::FinWait1
        } else {
            CloseState::Established
        },
        CloseState::FinWait1 => CloseState::FinWait2,
        CloseState::FinWait2 => CloseState::TimeWait,
        CloseState::TimeWait => if ack {
            CloseState::Closed
        } else {
            CloseState::TimeWait
        },
        CloseState::Closed => CloseState::Closed,
    }
}

/// Close-state progression law: starting in Established, a FIN-bearing
/// segment moves to FinWait1; each further segment, from either direction,
/// moves FinWait1 to FinWait2 and FinWait2 to TimeWait; an ACK-bearing
/// segment while in TimeWait moves to Closed; and no transition other than
/// these exists — Established without FIN, TimeWait without ACK, and Closed
/// all stay where they are.
pub proof fn lemma_close_progression(fin: bool, ack: bool)
    ensures
        close_step(CloseState::Established, true, ack) == CloseState::FinWait1,
        close_step(CloseState::Established, false, ack) == CloseState::Established,
        close_step(CloseState::FinWait1, fin, ack) == CloseState::FinWait2,
        close_step(CloseState::FinWait2, fin, ack) == CloseState::TimeWait,
        close_step(CloseState::TimeWait, fin, true) == CloseState::Closed,
        close_step(CloseState::TimeWait, fin, false) == CloseState::TimeWait,
        close_step(CloseState::Closed, fin, ack) == CloseState::Closed,
{
}

} // verus!

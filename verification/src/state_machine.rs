//! The session state machine: a pure function from the control flags of an
//! observed segment and the session's current state (if a session exists) to
//! the next state.

use vstd::prelude::*;

verus! {

/// The control flags of an observed TCP segment that matter to state
/// tracking.
#[derive(Clone, Copy, Debug, PartialEq, Eq, Structural)]
pub struct SegmentFlags {
    pub syn: bool,
    pub ack: bool,
    pub fin: bool,
    pub reset: bool,
}

/// The inferred lifecycle state of one tracked TCP session.
///
/// `ClosedFin`, `ClosedRst` and `ClosedTimeout` are sticky: once a session
/// carries one of them, no observed segment changes its state again.
/// `Refused` is only ever computed for a flow whose opening SYN was answered
/// by a RST.
#[derive(Clone, Copy, Debug, PartialEq, Eq, Structural)]
pub enum TcpSessionState {
    SynSent,
    SynReceived,
    Established,
    FinWait1,
    FinWait2,
    ClosedFin,
    ClosedRst,
    ClosedTimeout,
    Refused,
}

/// A state from which no segment-driven transition ever fires again.
pub open spec fn is_closed_state(s: TcpSessionState) -> bool {
    s == TcpSessionState::ClosedFin || s == TcpSessionState::ClosedRst
        || s == TcpSessionState::ClosedTimeout
}

/// The transition function of the state machine.
///
/// With a prior session the rules are tried in order, first match wins:
/// closed states are sticky; SYN+ACK marks the passive side's answer; a RST
/// — with or without ACK, its usual on-wire companion — refuses a `SynSent`
/// flow and closes any other; an ACK completes the handshake from `SynSent`;
/// a FIN from `Established` and the two following ACKs walk the teardown;
/// anything else is taken for an ordinary data segment of an established
/// flow.
///
/// Without a prior session the segment is classified on its flags alone; only
/// the `SynSent` outcome ever leads to a session being stored.
pub open spec fn spec_next_state(
    flags: SegmentFlags,
    current: Option<TcpSessionState>,
) -> TcpSessionState {
    match current {
        Some(state) => {
            if is_closed_state(state) {
                state
            } else if flags.syn && flags.ack {
                TcpSessionState::SynReceived
            } else if flags.reset && state == TcpSessionState::SynSent {
                TcpSessionState::Refused
            } else if flags.reset {
                TcpSessionState::ClosedRst
            } else if flags.ack && state == TcpSessionState::SynSent {
                TcpSessionState::Established
            } else if flags.fin && state == TcpSessionState::Established {
                TcpSessionState::FinWait1
            } else if flags.ack && state == TcpSessionState::FinWait1 {
                TcpSessionState::FinWait2
            } else if flags.ack && state == TcpSessionState::FinWait2 {
                TcpSessionState::ClosedFin
            } else {
                TcpSessionState::Established
            }
        },
        None => {
            if flags.syn && !flags.ack {
                TcpSessionState::SynSent
            } else if flags.syn && flags.ack {
                TcpSessionState::SynReceived
            } else if !flags.syn && flags.ack {
                TcpSessionState::Established
            } else if flags.fin {
                TcpSessionState::FinWait1
            } else if flags.reset {
                TcpSessionState::ClosedRst
            } else {
                TcpSessionState::Established
            }
        },
    }
}

impl TcpSessionState {
    /// Whether this state is one of the three sticky closed states.
    pub fn is_closed(&self) -> (r: bool)
        ensures
            r == is_closed_state(*self),
    {
        *self == TcpSessionState::ClosedFin || *self == TcpSessionState::ClosedRst
            || *self == TcpSessionState::ClosedTimeout
    }

    /// The state's name, for diagnostics and reports.
    pub fn name(&self) -> (r: &'static str)
        ensures
            (*self == TcpSessionState::SynSent ==> r@ == "SynSent"@),
            (*self == TcpSessionState::SynReceived ==> r@ == "SynReceived"@),
            (*self == TcpSessionState::Established ==> r@ == "Established"@),
            (*self == TcpSessionState::FinWait1 ==> r@ == "FinWait1"@),
            (*self == TcpSessionState::FinWait2 ==> r@ == "FinWait2"@),
            (*self == TcpSessionState::ClosedFin ==> r@ == "ClosedFin"@),
            (*self == TcpSessionState::ClosedRst ==> r@ == "ClosedRst"@),
            (*self == TcpSessionState::ClosedTimeout ==> r@ == "ClosedTimeout"@),
            (*self == TcpSessionState::Refused ==> r@ == "Refused"@),
    {
        match *self {
            TcpSessionState::SynSent => "SynSent",
            TcpSessionState::SynReceived => "SynReceived",
            TcpSessionState::Established => "Established",
            TcpSessionState::FinWait1 => "FinWait1",
            TcpSessionState::FinWait2 => "FinWait2",
            TcpSessionState::ClosedFin => "ClosedFin",
            TcpSessionState::ClosedRst => "ClosedRst",
            TcpSessionState::ClosedTimeout => "ClosedTimeout",
            TcpSessionState::Refused => "Refused",
        }
    }
}

/// The executable transition function; it returns exactly what
/// `spec_next_state` describes.
pub fn next_state(flags: SegmentFlags, current: Option<TcpSessionState>) -> (r: TcpSessionState)
    ensures
        r == spec_next_state(flags, current),
{
    match current {
        Some(state) => {
            // Never reopen a closed session on an out-of-order segment.
            if state.is_closed() {
                return state;
            }
            if flags.syn && flags.ack {
                TcpSessionState::SynReceived
            } else if flags.reset && state == TcpSessionState::SynSent {
                // The opening SYN was answered with a RST: rejected.
                TcpSessionState::Refused
            } else if flags.reset {
                TcpSessionState::ClosedRst
            } else if flags.ack && state == TcpSessionState::SynSent {
                // Handshake completed.
                TcpSessionState::Established
            } else if flags.fin && state == TcpSessionState::Established {
                // First FIN of the teardown.
                TcpSessionState::FinWait1
            } else if flags.ack && state == TcpSessionState::FinWait1 {
                TcpSessionState::FinWait2
            } else if flags.ack && state == TcpSessionState::FinWait2 {
                // Final ACK of the teardown.
                TcpSessionState::ClosedFin
            } else {
                TcpSessionState::Established
            }
        },
        None => {
            // First segment seen for this key.
            if flags.syn && !flags.ack {
                TcpSessionState::SynSent
            } else if flags.syn && flags.ack {
                TcpSessionState::SynReceived
            } else if !flags.syn && flags.ack {
                // A flow first observed mid-stream: assume the likeliest
                // case, a segment of an established connection. Only a
                // `SynSent` verdict leads to a stored session, so this
                // verdict is computed for consistency and then discarded.
                TcpSessionState::Established
            } else if flags.fin {
                TcpSessionState::FinWait1
            } else if flags.reset {
                TcpSessionState::ClosedRst
            } else {
                // Unexpected flag combination: fall back to the default.
                TcpSessionState::Established
            }
        },
    }
}

/// Once a session is closed, no segment moves it: the transition function
/// returns the current state unchanged for every flag combination.
pub proof fn lemma_closed_state_is_sticky(flags: SegmentFlags, state: TcpSessionState)
    requires
        is_closed_state(state),
    ensures
        spec_next_state(flags, Some(state)) == state,
{
}

} // verus!

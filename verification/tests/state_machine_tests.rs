use session_tracker::state_machine::{next_state, SegmentFlags, TcpSessionState};

fn flags(syn: bool, ack: bool, fin: bool, reset: bool) -> SegmentFlags {
    SegmentFlags { syn, ack, fin, reset }
}

#[test]
fn first_segment_classification() {
    // Only a bare SYN yields SynSent; everything else is discarded by policy.
    assert_eq!(next_state(flags(true, false, false, false), None), TcpSessionState::SynSent);
    assert_eq!(next_state(flags(true, true, false, false), None), TcpSessionState::SynReceived);
    assert_eq!(next_state(flags(false, true, false, false), None), TcpSessionState::Established);
    assert_eq!(next_state(flags(false, false, true, false), None), TcpSessionState::FinWait1);
    assert_eq!(next_state(flags(false, false, false, true), None), TcpSessionState::ClosedRst);
    assert_eq!(next_state(flags(false, false, false, false), None), TcpSessionState::Established);
}

#[test]
fn handshake_progression() {
    let after_syn = next_state(flags(true, false, false, false), None);
    assert_eq!(after_syn, TcpSessionState::SynSent);
    let after_syn_ack = next_state(flags(true, true, false, false), Some(after_syn));
    assert_eq!(after_syn_ack, TcpSessionState::SynReceived);
    let after_ack = next_state(flags(false, true, false, false), Some(after_syn_ack));
    assert_eq!(after_ack, TcpSessionState::Established);
}

#[test]
fn teardown_progression() {
    let after_fin = next_state(flags(false, false, true, false), Some(TcpSessionState::Established));
    assert_eq!(after_fin, TcpSessionState::FinWait1);
    let after_ack1 = next_state(flags(false, true, false, false), Some(after_fin));
    assert_eq!(after_ack1, TcpSessionState::FinWait2);
    let after_ack2 = next_state(flags(false, true, false, false), Some(after_ack1));
    assert_eq!(after_ack2, TcpSessionState::ClosedFin);
}

#[test]
fn closed_states_are_sticky() {
    let all_flags = [
        flags(true, false, false, false),
        flags(true, true, false, false),
        flags(false, true, false, false),
        flags(false, false, true, false),
        flags(false, false, false, true),
        flags(true, true, true, true),
        flags(false, false, false, false),
    ];
    for f in all_flags {
        assert_eq!(
            next_state(f, Some(TcpSessionState::ClosedFin)),
            TcpSessionState::ClosedFin
        );
        assert_eq!(
            next_state(f, Some(TcpSessionState::ClosedRst)),
            TcpSessionState::ClosedRst
        );
        assert_eq!(
            next_state(f, Some(TcpSessionState::ClosedTimeout)),
            TcpSessionState::ClosedTimeout
        );
    }
}

#[test]
fn rst_on_syn_sent_refuses() {
    // An immediate RST answering the opening SYN rejects the connection —
    // with or without an accompanying ACK, its usual on-wire form.
    assert_eq!(
        next_state(flags(false, false, false, true), Some(TcpSessionState::SynSent)),
        TcpSessionState::Refused
    );
    assert_eq!(
        next_state(flags(false, true, false, true), Some(TcpSessionState::SynSent)),
        TcpSessionState::Refused
    );
    assert_eq!(
        next_state(flags(true, false, false, true), Some(TcpSessionState::SynSent)),
        TcpSessionState::Refused
    );
}

#[test]
fn rst_elsewhere_closes() {
    let rst = flags(false, false, false, true);
    let rst_ack = flags(false, true, false, true);
    assert_eq!(
        next_state(rst, Some(TcpSessionState::SynReceived)),
        TcpSessionState::ClosedRst
    );
    assert_eq!(
        next_state(rst_ack, Some(TcpSessionState::SynReceived)),
        TcpSessionState::ClosedRst
    );
    assert_eq!(
        next_state(rst, Some(TcpSessionState::Established)),
        TcpSessionState::ClosedRst
    );
    assert_eq!(
        next_state(rst_ack, Some(TcpSessionState::Established)),
        TcpSessionState::ClosedRst
    );
    assert_eq!(next_state(rst, Some(TcpSessionState::FinWait1)), TcpSessionState::ClosedRst);
    assert_eq!(next_state(rst, Some(TcpSessionState::FinWait2)), TcpSessionState::ClosedRst);
}

#[test]
fn syn_ack_takes_precedence() {
    // SYN+ACK outranks every other rule for a live session.
    assert_eq!(
        next_state(flags(true, true, false, true), Some(TcpSessionState::Established)),
        TcpSessionState::SynReceived
    );
}

#[test]
fn data_segment_defaults_to_established() {
    let data = flags(false, true, false, false);
    assert_eq!(
        next_state(data, Some(TcpSessionState::SynReceived)),
        TcpSessionState::Established
    );
    assert_eq!(
        next_state(data, Some(TcpSessionState::Established)),
        TcpSessionState::Established
    );
}

#[test]
fn state_names() {
    assert_eq!(TcpSessionState::SynSent.name(), "SynSent");
    assert_eq!(TcpSessionState::SynReceived.name(), "SynReceived");
    assert_eq!(TcpSessionState::Established.name(), "Established");
    assert_eq!(TcpSessionState::FinWait1.name(), "FinWait1");
    assert_eq!(TcpSessionState::FinWait2.name(), "FinWait2");
    assert_eq!(TcpSessionState::ClosedFin.name(), "ClosedFin");
    assert_eq!(TcpSessionState::ClosedRst.name(), "ClosedRst");
    assert_eq!(TcpSessionState::ClosedTimeout.name(), "ClosedTimeout");
    assert_eq!(TcpSessionState::Refused.name(), "Refused");
}

#[test]
fn is_closed_matches_states() {
    assert!(TcpSessionState::ClosedFin.is_closed());
    assert!(TcpSessionState::ClosedRst.is_closed());
    assert!(TcpSessionState::ClosedTimeout.is_closed());
    assert!(!TcpSessionState::SynSent.is_closed());
    assert!(!TcpSessionState::Refused.is_closed());
    assert!(!TcpSessionState::Established.is_closed());
}

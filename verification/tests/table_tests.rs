use session_tracker::registry::{insert_session_segment, SegmentRegistry};
use session_tracker::segment::{IpAddress, TcpSegment, TcpSessionKey, TrafficDirection};
use session_tracker::state_machine::{SegmentFlags, TcpSessionState};
use session_tracker::table::{retention_sweep, timeout_sweep, timeout_sweep_at, TcpTable};
use session_tracker::tags::{Tag, TagParameter, TagValue};

const IDLE_MILLIS: i64 = 60_000;

fn key(n: u32) -> TcpSessionKey {
    TcpSessionKey {
        address_low: IpAddress::V4(n),
        port_low: 1000,
        address_high: IpAddress::V4(n + 1),
        port_high: 443,
    }
}

fn segment(
    k: TcpSessionKey,
    syn: bool,
    ack: bool,
    fin: bool,
    reset: bool,
    sequence_number: u32,
    payload: Vec<u8>,
    timestamp: i64,
    direction: TrafficDirection,
) -> TcpSegment {
    TcpSegment {
        session_key: k,
        flags: SegmentFlags { syn, ack, fin, reset },
        sequence_number,
        size: 40 + payload.len() as u32,
        payload,
        timestamp,
        source_address: k.address_low,
        source_port: k.port_low,
        destination_address: k.address_high,
        destination_port: k.port_high,
        direction,
    }
}

#[test]
fn bare_syn_creates_session() {
    let mut table = TcpTable::new();
    let k = key(1);
    table.register_segment(&segment(
        k,
        true,
        false,
        false,
        false,
        100,
        Vec::new(),
        5,
        TrafficDirection::ClientToServer,
    ));
    assert_eq!(table.len(), 1);
    let session = table.get_session(&k).unwrap();
    assert_eq!(session.state, TcpSessionState::SynSent);
    assert_eq!(session.segment_count, 1);
    assert_eq!(session.bytes_count, 40);
    assert_eq!(session.start_time, 5);
    assert_eq!(session.most_recent_segment_time, 5);
    assert_eq!(session.end_time, None);
    assert_eq!(session.source_address, IpAddress::V4(1));
    assert_eq!(session.source_port, 1000);
}

#[test]
fn other_first_segments_create_nothing() {
    let mut table = TcpTable::new();
    let cases = [
        (true, true, false, false),   // SYN+ACK
        (false, true, false, false),  // bare ACK, mid-stream
        (false, false, true, false),  // FIN
        (false, false, false, true),  // RST
        (false, false, false, false), // nothing set
    ];
    for (i, (syn, ack, fin, reset)) in cases.iter().enumerate() {
        let k = key(10 + i as u32);
        table.register_segment(&segment(
            k,
            *syn,
            *ack,
            *fin,
            *reset,
            1,
            Vec::new(),
            5,
            TrafficDirection::ClientToServer,
        ));
        assert!(table.get_session(&k).is_none());
    }
    assert_eq!(table.len(), 0);
}

#[test]
fn rst_for_unknown_key_is_harmless() {
    // The segment is observed but produces no table entry and no error.
    let mut table = TcpTable::new();
    let k = key(2);
    table.register_segment(&segment(
        k,
        false,
        false,
        false,
        true,
        7,
        Vec::new(),
        9,
        TrafficDirection::ServerToClient,
    ));
    assert_eq!(table.len(), 0);
    assert!(table.get_session(&k).is_none());
}

#[test]
fn handshake_drives_session_to_established() {
    let mut table = TcpTable::new();
    let k = key(3);
    table.register_segment(&segment(
        k,
        true,
        false,
        false,
        false,
        100,
        Vec::new(),
        1,
        TrafficDirection::ClientToServer,
    ));
    assert_eq!(table.get_session(&k).unwrap().state, TcpSessionState::SynSent);
    table.register_segment(&segment(
        k,
        true,
        true,
        false,
        false,
        500,
        Vec::new(),
        2,
        TrafficDirection::ServerToClient,
    ));
    assert_eq!(table.get_session(&k).unwrap().state, TcpSessionState::SynReceived);
    table.register_segment(&segment(
        k,
        false,
        true,
        false,
        false,
        101,
        Vec::new(),
        3,
        TrafficDirection::ClientToServer,
    ));
    let session = table.get_session(&k).unwrap();
    assert_eq!(session.state, TcpSessionState::Established);
    assert_eq!(session.segment_count, 3);
    assert_eq!(session.most_recent_segment_time, 3);
}

#[test]
fn rst_after_syn_refuses_session() {
    let mut table = TcpTable::new();
    let k = key(4);
    table.register_segment(&segment(
        k,
        true,
        false,
        false,
        false,
        1,
        Vec::new(),
        1,
        TrafficDirection::ClientToServer,
    ));
    table.register_segment(&segment(
        k,
        false,
        false,
        false,
        true,
        2,
        Vec::new(),
        2,
        TrafficDirection::ServerToClient,
    ));
    assert_eq!(table.get_session(&k).unwrap().state, TcpSessionState::Refused);
}

#[test]
fn rst_ack_after_syn_refuses_session() {
    // The usual wire form of a refusal: the RST answering the SYN carries an
    // ACK as well.
    let mut table = TcpTable::new();
    let k = key(41);
    table.register_segment(&segment(
        k,
        true,
        false,
        false,
        false,
        1,
        Vec::new(),
        1,
        TrafficDirection::ClientToServer,
    ));
    table.register_segment(&segment(
        k,
        false,
        true,
        false,
        true,
        2,
        Vec::new(),
        2,
        TrafficDirection::ServerToClient,
    ));
    assert_eq!(table.get_session(&k).unwrap().state, TcpSessionState::Refused);
}

#[test]
fn teardown_sets_end_time_exactly_once() {
    let mut table = TcpTable::new();
    let k = key(5);
    let c2s = TrafficDirection::ClientToServer;
    let s2c = TrafficDirection::ServerToClient;
    table.register_segment(&segment(k, true, false, false, false, 1, Vec::new(), 1, c2s));
    table.register_segment(&segment(k, true, true, false, false, 2, Vec::new(), 2, s2c));
    table.register_segment(&segment(k, false, true, false, false, 3, Vec::new(), 3, c2s));
    table.register_segment(&segment(k, false, false, true, false, 4, Vec::new(), 4, c2s));
    assert_eq!(table.get_session(&k).unwrap().state, TcpSessionState::FinWait1);
    table.register_segment(&segment(k, false, true, false, false, 5, Vec::new(), 5, s2c));
    assert_eq!(table.get_session(&k).unwrap().state, TcpSessionState::FinWait2);
    table.register_segment(&segment(k, false, true, false, false, 6, Vec::new(), 6, c2s));
    let session = table.get_session(&k).unwrap();
    assert_eq!(session.state, TcpSessionState::ClosedFin);
    assert_eq!(session.end_time, Some(6));
    // A straggler changes neither the sticky state nor the set end time.
    table.register_segment(&segment(k, true, false, false, false, 7, Vec::new(), 9, c2s));
    let session = table.get_session(&k).unwrap();
    assert_eq!(session.state, TcpSessionState::ClosedFin);
    assert_eq!(session.end_time, Some(6));
    assert_eq!(session.segment_count, 7);
}

#[test]
fn payload_routed_by_direction_and_deduplicated() {
    let mut table = TcpTable::new();
    let k = key(6);
    let c2s = TrafficDirection::ClientToServer;
    let s2c = TrafficDirection::ServerToClient;
    table.register_segment(&segment(k, true, false, false, false, 1, Vec::new(), 1, c2s));
    table.register_segment(&segment(k, false, true, false, false, 10, vec![1, 2], 2, c2s));
    table.register_segment(&segment(k, false, true, false, false, 20, vec![3], 3, s2c));
    // Retransmission of sequence number 10 with different bytes: dropped.
    table.register_segment(&segment(k, false, true, false, false, 10, vec![9, 9], 4, c2s));
    // Same sequence number on the other direction is its own entry.
    table.register_segment(&segment(k, false, true, false, false, 10, vec![7], 5, s2c));
    let session = table.get_session(&k).unwrap();
    assert_eq!(session.segments_client_to_server.len(), 1);
    assert_eq!(session.segments_server_to_client.len(), 2);
    let (n, payload) = session.segments_client_to_server.entry_at(0);
    assert_eq!(n, 10);
    assert_eq!(payload, &vec![1, 2]);
    // Ascending sequence-number order in the other registry.
    let (n0, p0) = session.segments_server_to_client.entry_at(0);
    let (n1, p1) = session.segments_server_to_client.entry_at(1);
    assert_eq!((n0, p0), (10, &vec![7]));
    assert_eq!((n1, p1), (20, &vec![3]));
    // An empty payload is never registered.
    assert_eq!(session.segment_count, 5);
}

#[test]
fn registry_keeps_first_payload() {
    let mut reg = SegmentRegistry::new();
    let k = key(7);
    let a = segment(k, false, true, false, false, 42, vec![1], 1, TrafficDirection::ClientToServer);
    let b = segment(k, false, true, false, false, 42, vec![2], 2, TrafficDirection::ClientToServer);
    let c = segment(k, false, true, false, false, 41, vec![3], 3, TrafficDirection::ClientToServer);
    insert_session_segment(&a, &mut reg);
    insert_session_segment(&b, &mut reg);
    insert_session_segment(&c, &mut reg);
    assert_eq!(reg.len(), 2);
    assert!(reg.contains_sequence_number(41));
    assert!(reg.contains_sequence_number(42));
    assert!(!reg.contains_sequence_number(40));
    assert_eq!(reg.entry_at(0), (41, &vec![3]));
    assert_eq!(reg.entry_at(1), (42, &vec![1]));
}

#[test]
fn timeout_sweep_closes_only_idle_sessions() {
    let mut table = TcpTable::new();
    let fresh = key(8);
    let stale = key(9);
    let c2s = TrafficDirection::ClientToServer;
    table.register_segment(&segment(stale, true, false, false, false, 1, Vec::new(), 1_000, c2s));
    table.register_segment(&segment(fresh, true, false, false, false, 1, Vec::new(), 70_000, c2s));
    timeout_sweep_at(&mut table, 100_000, IDLE_MILLIS);
    assert_eq!(table.get_session(&stale).unwrap().state, TcpSessionState::ClosedTimeout);
    // The sweep does not stamp an end time.
    assert_eq!(table.get_session(&stale).unwrap().end_time, None);
    assert_eq!(table.get_session(&fresh).unwrap().state, TcpSessionState::SynSent);
}

#[test]
fn timeout_sweep_boundary_is_strict() {
    let mut table = TcpTable::new();
    let k = key(20);
    let c2s = TrafficDirection::ClientToServer;
    table.register_segment(&segment(k, true, false, false, false, 1, Vec::new(), 0, c2s));
    // Exactly the threshold old: not yet idle.
    timeout_sweep_at(&mut table, IDLE_MILLIS, IDLE_MILLIS);
    assert_eq!(table.get_session(&k).unwrap().state, TcpSessionState::SynSent);
    // One millisecond beyond: idle.
    timeout_sweep_at(&mut table, IDLE_MILLIS + 1, IDLE_MILLIS);
    assert_eq!(table.get_session(&k).unwrap().state, TcpSessionState::ClosedTimeout);
}

#[test]
fn timeout_sweep_is_idempotent() {
    let mut table = TcpTable::new();
    let c2s = TrafficDirection::ClientToServer;
    for n in 0..4u32 {
        table.register_segment(&segment(
            key(30 + n),
            true,
            false,
            false,
            false,
            1,
            Vec::new(),
            (n as i64) * 40_000,
            c2s,
        ));
    }
    timeout_sweep_at(&mut table, 130_000, IDLE_MILLIS);
    let snapshot: Vec<(TcpSessionKey, TcpSessionState, Option<i64>, u64)> = (0..4u32)
        .map(|n| {
            let s = table.get_session(&key(30 + n)).unwrap();
            (key(30 + n), s.state, s.end_time, s.segment_count)
        })
        .collect();
    timeout_sweep_at(&mut table, 130_000, IDLE_MILLIS);
    for (k, state, end_time, count) in snapshot {
        let s = table.get_session(&k).unwrap();
        assert_eq!(s.state, state);
        assert_eq!(s.end_time, end_time);
        assert_eq!(s.segment_count, count);
    }
    assert_eq!(table.len(), 4);
}

#[test]
fn timeout_sweep_against_system_clock() {
    let mut table = TcpTable::new();
    let k = key(40);
    let c2s = TrafficDirection::ClientToServer;
    // A session last touched at the epoch is idle by any real clock reading.
    table.register_segment(&segment(k, true, false, false, false, 1, Vec::new(), 0, c2s));
    timeout_sweep(&mut table, IDLE_MILLIS);
    assert_eq!(table.get_session(&k).unwrap().state, TcpSessionState::ClosedTimeout);
}

#[test]
fn retention_sweep_evicts_exactly_closed_sessions() {
    let mut table = TcpTable::new();
    let c2s = TrafficDirection::ClientToServer;
    let s2c = TrafficDirection::ServerToClient;
    let open_key = key(50);
    let refused_key = key(51);
    let rst_key = key(52);
    let timed_out_key = key(53);
    for k in [open_key, refused_key, rst_key, timed_out_key] {
        table.register_segment(&segment(k, true, false, false, false, 1, Vec::new(), 200_000, c2s));
    }
    table.register_segment(&segment(refused_key, false, false, false, true, 2, Vec::new(), 200_001, s2c));
    table.register_segment(&segment(rst_key, true, true, false, false, 2, Vec::new(), 200_001, s2c));
    table.register_segment(&segment(rst_key, false, false, false, true, 3, Vec::new(), 200_002, s2c));
    // At this reading the sessions last touched at 200 000 ms are idle
    // (60 001 ms of silence); those touched later are not.
    timeout_sweep_at(&mut table, 260_001, IDLE_MILLIS);
    assert_eq!(table.get_session(&open_key).unwrap().state, TcpSessionState::ClosedTimeout);
    assert_eq!(table.get_session(&timed_out_key).unwrap().state, TcpSessionState::ClosedTimeout);
    assert_eq!(table.get_session(&refused_key).unwrap().state, TcpSessionState::Refused);
    assert_eq!(table.get_session(&rst_key).unwrap().state, TcpSessionState::ClosedRst);
    assert_eq!(table.len(), 4);
    retention_sweep(&mut table);
    // The three closed sessions leave; the refused one is retained.
    assert!(table.get_session(&rst_key).is_none());
    assert!(table.get_session(&timed_out_key).is_none());
    assert!(table.get_session(&open_key).is_none());
    assert_eq!(table.get_session(&refused_key).unwrap().state, TcpSessionState::Refused);
    assert_eq!(table.len(), 1);
}

#[test]
fn retention_sweep_keeps_refused_and_live_sessions() {
    let mut table = TcpTable::new();
    let c2s = TrafficDirection::ClientToServer;
    let s2c = TrafficDirection::ServerToClient;
    let live = key(60);
    let refused = key(61);
    let closed = key(62);
    for k in [live, refused, closed] {
        table.register_segment(&segment(k, true, false, false, false, 1, Vec::new(), 10, c2s));
    }
    table.register_segment(&segment(refused, false, false, false, true, 2, Vec::new(), 11, s2c));
    table.register_segment(&segment(closed, true, true, false, false, 2, Vec::new(), 11, s2c));
    table.register_segment(&segment(closed, false, false, false, true, 3, Vec::new(), 12, s2c));
    retention_sweep(&mut table);
    assert_eq!(table.len(), 2);
    assert_eq!(table.get_session(&live).unwrap().state, TcpSessionState::SynSent);
    assert_eq!(table.get_session(&refused).unwrap().state, TcpSessionState::Refused);
    assert!(table.get_session(&closed).is_none());
}

#[test]
fn report_cycle_scenario() {
    // Segment A (SYN, seq 100) creates the session; B (SYN+ACK, seq 500)
    // and C (ACK, seq 101) complete the handshake. A report cycle right
    // after shows one Established session with three segments; a cycle
    // after the idle threshold shows the table empty.
    let mut table = TcpTable::new();
    let k = key(70);
    let c2s = TrafficDirection::ClientToServer;
    let s2c = TrafficDirection::ServerToClient;
    table.register_segment(&segment(k, true, false, false, false, 100, Vec::new(), 1_000, c2s));
    assert_eq!(table.get_session(&k).unwrap().state, TcpSessionState::SynSent);
    table.register_segment(&segment(k, true, true, false, false, 500, Vec::new(), 2_000, s2c));
    assert_eq!(table.get_session(&k).unwrap().state, TcpSessionState::SynReceived);
    table.register_segment(&segment(k, false, true, false, false, 101, Vec::new(), 3_000, c2s));

    // First cycle, immediately after the last segment.
    timeout_sweep_at(&mut table, 3_500, IDLE_MILLIS);
    let session = table.get_session(&k).unwrap();
    assert_eq!(session.state, TcpSessionState::Established);
    assert_eq!(session.segment_count, 3);
    retention_sweep(&mut table);
    assert_eq!(table.len(), 1);

    // Second cycle, after the idle threshold has elapsed with no segments.
    timeout_sweep_at(&mut table, 3_000 + IDLE_MILLIS + 1, IDLE_MILLIS);
    assert_eq!(table.get_session(&k).unwrap().state, TcpSessionState::ClosedTimeout);
    retention_sweep(&mut table);
    assert_eq!(table.len(), 0);
    assert!(table.get_session(&k).is_none());
}

#[test]
fn tags_attach_to_one_session() {
    let mut table = TcpTable::new();
    let c2s = TrafficDirection::ClientToServer;
    let tagged = key(80);
    let plain = key(81);
    for k in [tagged, plain] {
        table.register_segment(&segment(k, true, false, false, false, 1, Vec::new(), 10, c2s));
    }
    let tag = Tag {
        name: String::from("tls"),
        parameters: vec![TagParameter {
            name: String::from("version"),
            value: TagValue::Byte(3),
        }],
    };
    assert!(table.set_session_tags(&tagged, vec![tag]));
    assert!(!table.set_session_tags(&key(99), Vec::new()));
    let session = table.get_session(&tagged).unwrap();
    let tags = session.tags.as_ref().unwrap();
    assert_eq!(tags.len(), 1);
    assert_eq!(tags[0].name, "tls");
    assert_eq!(tags[0].parameters[0].value, TagValue::Byte(3));
    assert!(table.get_session(&plain).unwrap().tags.is_none());
}

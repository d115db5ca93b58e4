//! The record of one tracked flow's observed lifecycle, and the mathematical
//! description of how a single observed segment changes it.

use vstd::prelude::*;
use crate::registry::{SegmentRegistry, reg_insert, reg_sorted};
use crate::segment::{IpAddress, SegmentView, TcpSegment, TrafficDirection};
use crate::state_machine::{next_state, spec_next_state, TcpSessionState};
use crate::tags::Tag;

verus! {

/// One tracked TCP session: created on the first qualifying segment of a
/// flow, mutated in place by every later segment of the same flow, by the
/// timeout sweep and by the tagging collaborator.
///
/// Endpoints are fixed at creation; `end_time` is set at most once, by the
/// segment that closes the session; the counters cover every segment that
/// touched the session, while the two registries hold only payload-bearing
/// segments, one registry per direction.
pub struct TcpSession {
    pub state: TcpSessionState,
    pub source_address: IpAddress,
    pub source_port: u16,
    pub destination_address: IpAddress,
    pub destination_port: u16,
    pub start_time: i64,
    pub end_time: Option<i64>,
    pub most_recent_segment_time: i64,
    pub segment_count: u64,
    pub bytes_count: u64,
    pub segments_client_to_server: SegmentRegistry,
    pub segments_server_to_client: SegmentRegistry,
    pub tags: Option<Vec<Tag>>,
}

/// The mathematical model of a session: the same fields with the registries
/// as sequences.
pub ghost struct SessionView {
    pub state: TcpSessionState,
    pub source_address: IpAddress,
    pub source_port: u16,
    pub destination_address: IpAddress,
    pub destination_port: u16,
    pub start_time: i64,
    pub end_time: Option<i64>,
    pub most_recent_segment_time: i64,
    pub segment_count: u64,
    pub bytes_count: u64,
    pub segments_client_to_server: Seq<(u32, Seq<u8>)>,
    pub segments_server_to_client: Seq<(u32, Seq<u8>)>,
    pub tags: Option<Seq<Tag>>,
}

impl View for TcpSession {
    type V = SessionView;

    open spec fn view(&self) -> SessionView {
        SessionView {
            state: self.state,
            source_address: self.source_address,
            source_port: self.source_port,
            destination_address: self.destination_address,
            destination_port: self.destination_port,
            start_time: self.start_time,
            end_time: self.end_time,
            most_recent_segment_time: self.most_recent_segment_time,
            segment_count: self.segment_count,
            bytes_count: self.bytes_count,
            segments_client_to_server: self.segments_client_to_server@,
            segments_server_to_client: self.segments_server_to_client@,
            tags: match self.tags {
                Some(t) => Some(t@),
                None => None,
            },
        }
    }
}

impl SessionView {
    /// The session's invariant: both registries ascend strictly by sequence
    /// number.
    pub open spec fn wf(self) -> bool {
        reg_sorted(self.segments_client_to_server) && reg_sorted(self.segments_server_to_client)
    }
}

/// The session a qualifying first segment creates: `SynSent`, endpoints and
/// timestamps taken from that segment, counters covering it, registries
/// empty, no tags.
pub open spec fn session_created(g: SegmentView) -> SessionView {
    SessionView {
        state: TcpSessionState::SynSent,
        source_address: g.source_address,
        source_port: g.source_port,
        destination_address: g.destination_address,
        destination_port: g.destination_port,
        start_time: g.timestamp,
        end_time: None,
        most_recent_segment_time: g.timestamp,
        segment_count: 1,
        bytes_count: g.size as u64,
        segments_client_to_server: Seq::empty(),
        segments_server_to_client: Seq::empty(),
        tags: None,
    }
}

/// The session after one further observed segment: the state machine
/// advances the state; a non-empty payload is routed into the registry of
/// the segment's direction; the recency timestamp and both counters move;
/// `end_time` is set, once, by the segment that drives the session into
/// `ClosedFin` or `ClosedRst`. Everything else is untouched.
pub open spec fn session_touched(s: SessionView, g: SegmentView) -> SessionView {
    let next = spec_next_state(g.flags, Some(s.state));
    SessionView {
        state: next,
        most_recent_segment_time: g.timestamp,
        segment_count: (s.segment_count + 1) as u64,
        bytes_count: (s.bytes_count + g.size) as u64,
        segments_client_to_server: if g.payload.len() > 0
            && g.direction == TrafficDirection::ClientToServer {
            reg_insert(s.segments_client_to_server, g.sequence_number, g.payload)
        } else {
            s.segments_client_to_server
        },
        segments_server_to_client: if g.payload.len() > 0
            && g.direction == TrafficDirection::ServerToClient {
            reg_insert(s.segments_server_to_client, g.sequence_number, g.payload)
        } else {
            s.segments_server_to_client
        },
        end_time: if s.end_time is None && (next == TcpSessionState::ClosedFin
            || next == TcpSessionState::ClosedRst) {
            Some(g.timestamp)
        } else {
            s.end_time
        },
        ..s
    }
}

/// Whether a session with recency timestamp `most_recent` counts as idle at
/// time `now` under the given idle threshold (all in milliseconds).
pub open spec fn spec_timed_out(most_recent: i64, now: i64, idle_millis: i64) -> bool {
    now - most_recent > idle_millis
}

/// The session after the timeout sweep has looked at it at time `now`: moved
/// to `ClosedTimeout` when idle — whatever state it was in — and untouched
/// otherwise. The sweep never sets `end_time`.
pub open spec fn session_swept(s: SessionView, now: i64, idle_millis: i64) -> SessionView {
    if spec_timed_out(s.most_recent_segment_time, now, idle_millis) {
        SessionView { state: TcpSessionState::ClosedTimeout, ..s }
    } else {
        s
    }
}

impl TcpSession {
    /// Advance this session by one observed segment, exactly as
    /// `session_touched` describes.
    pub fn apply_segment(&mut self, segment: &TcpSegment)
        requires
            old(self)@.wf(),
            old(self).segment_count + 1 <= u64::MAX,
            old(self).bytes_count + segment.size <= u64::MAX,
        ensures
            final(self)@ == session_touched(old(self)@, segment@),
            final(self)@.wf(),
    {
        let next = next_state(segment.flags, Some(self.state));

        if segment.payload.len() > 0 {
            match segment.direction {
                TrafficDirection::ClientToServer => {
                    crate::registry::insert_session_segment(
                        segment,
                        &mut self.segments_client_to_server,
                    );
                },
                TrafficDirection::ServerToClient => {
                    crate::registry::insert_session_segment(
                        segment,
                        &mut self.segments_server_to_client,
                    );
                },
            }
        }

        self.most_recent_segment_time = segment.timestamp;
        self.state = next;
        self.segment_count = self.segment_count + 1;
        self.bytes_count = self.bytes_count + segment.size as u64;

        if self.end_time.is_none() && (next == TcpSessionState::ClosedFin
            || next == TcpSessionState::ClosedRst) {
            self.end_time = Some(segment.timestamp);
        }
    }
}

} // verus!

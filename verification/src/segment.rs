//! The observed-segment data model: flow identity, traffic direction and the
//! per-segment fields the tracker reads.
//!
//! Timestamps are carried as milliseconds since the Unix epoch and addresses
//! as plain integers (a 32-bit value for IPv4, a 128-bit value for IPv6), so
//! the whole model is made of values the verifier can reason about directly.

use vstd::prelude::*;
use crate::state_machine::SegmentFlags;

verus! {

/// One endpoint address, as the raw bits of the observed IP header.
#[derive(Clone, Copy, Debug, PartialEq, Eq, Hash, Structural)]
pub enum IpAddress {
    V4(u32),
    V6(u128),
}

/// The direction of a segment relative to its flow, as decided by the
/// external traffic-direction classifier.
#[derive(Clone, Copy, Debug, PartialEq, Eq, Structural)]
pub enum TrafficDirection {
    ClientToServer,
    ServerToClient,
}

/// Canonical identity of a bidirectional flow: the endpoint 4-tuple, already
/// normalized by the classifier so that both directions of one flow map to
/// the same key.
#[derive(Clone, Copy, Debug, PartialEq, Eq, Hash, Structural)]
pub struct TcpSessionKey {
    pub address_low: IpAddress,
    pub port_low: u16,
    pub address_high: IpAddress,
    pub port_high: u16,
}

/// One observed TCP segment, as handed in by the capture and parsing layer:
/// header fields, payload bytes, capture timestamp (milliseconds since the
/// Unix epoch), on-wire size and the classifier's direction verdict.
pub struct TcpSegment {
    pub session_key: TcpSessionKey,
    pub flags: SegmentFlags,
    pub sequence_number: u32,
    pub payload: Vec<u8>,
    pub size: u32,
    pub timestamp: i64,
    pub source_address: IpAddress,
    pub source_port: u16,
    pub destination_address: IpAddress,
    pub destination_port: u16,
    pub direction: TrafficDirection,
}

/// The mathematical model of a segment: the same fields with the payload as
/// a sequence of bytes.
pub ghost struct SegmentView {
    pub session_key: TcpSessionKey,
    pub flags: SegmentFlags,
    pub sequence_number: u32,
    pub payload: Seq<u8>,
    pub size: u32,
    pub timestamp: i64,
    pub source_address: IpAddress,
    pub source_port: u16,
    pub destination_address: IpAddress,
    pub destination_port: u16,
    pub direction: TrafficDirection,
}

impl View for TcpSegment {
    type V = SegmentView;

    open spec fn view(&self) -> SegmentView {
        SegmentView {
            session_key: self.session_key,
            flags: self.flags,
            sequence_number: self.sequence_number,
            payload: self.payload@,
            size: self.size,
            timestamp: self.timestamp,
            source_address: self.source_address,
            source_port: self.source_port,
            destination_address: self.destination_address,
            destination_port: self.destination_port,
            direction: self.direction,
        }
    }
}

} // verus!

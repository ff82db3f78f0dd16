//! Wraps the fragments of each unit in RTP packets.
use vstd::prelude::*;

use crate::depacketizer::wire;
use crate::packetizer::{packetize, FragmentSpec, Packetizer};
use crate::rtp_packet::{header_bytes, Header};

verus! {

/// Largest fragment payload put in one packet.
pub const MTU: usize = 1400;

/// Dynamic payload type used for H.264.
pub const PAYLOAD_TYPE: u8 = 96;

/// RTP timestamp carried for a unit's media timestamp: its low 32 bits.
pub open spec fn rtp_timestamp(timestamp: u64) -> u32 {
    (timestamp % 0x1_0000_0000) as u32
}

/// Sequence number `n` packets after `start`, modulo 2^16.
pub open spec fn sequence_after(start: u16, n: int) -> u16 {
    ((start + n) % 0x1_0000) as u16
}

/// The header of every packet this sender makes: version 2, payload type 96.
pub open spec fn packet_header(sequence: u16, timestamp: u32) -> Header {
    Header { flags: 128, payload_type: PAYLOAD_TYPE, sequence, timestamp, ssrc: 0 }
}

/// The datagram that carries fragment `f`.
pub open spec fn datagram(sequence: u16, timestamp: u32, f: FragmentSpec) -> Seq<u8> {
    header_bytes(packet_header(sequence, timestamp)) + wire(f)
}

/// Numbers packets with a 16-bit sequence that wraps, one step per packet.
///
/// Every packet of a unit carries that unit's own media timestamp, cut to 32
/// bits; wall-clock time plays no part.
pub struct Sender {
    sequence: u16,
}

impl Sender {
    /// Sequence number of the next packet.
    pub closed spec fn next_sequence(self) -> u16 {
        self.sequence
    }

    pub fn new() -> (r: Sender)
        ensures
            r.next_sequence() == 0,
    {
        Sender { sequence: 0 }
    }

    /// A sender whose first packet carries `sequence`.
    pub fn starting_at(sequence: u16) -> (r: Sender)
        ensures
            r.next_sequence() == sequence,
    {
        Sender { sequence }
    }

    /// The datagrams that carry one unit: a packet per fragment at an MTU of
    /// 1400 bytes, numbered on from the last one sent, all with the unit's timestamp.
    pub fn packets(&mut self, data: &[u8], timestamp: u64) -> (r: Vec<Vec<u8>>)
        ensures
            r@.len() == packetize(data@, MTU as nat).len(),
            forall|i: int| 0 <= i < r@.len() ==> (#[trigger] r@[i])@ == datagram(
                sequence_after(old(self).next_sequence(), i),
                rtp_timestamp(timestamp),
                packetize(data@, MTU as nat)[i],
            ),
            final(self).next_sequence() == sequence_after(old(self).next_sequence(), r@.len() as int),
    {
        let ghost frags = packetize(data@, MTU as nat);
        let ghost start = self.sequence;
        let ts = (timestamp % 0x1_0000_0000) as u32;
        let mut packetizer = Packetizer::with_mtu(MTU, data);
        let mut out: Vec<Vec<u8>> = Vec::new();
        loop
            invariant
                packetizer.wf(),
                packetizer.pending() == frags.skip(out@.len() as int),
                out@.len() <= frags.len(),
                self.sequence == sequence_after(start, out@.len() as int),
                ts == rtp_timestamp(timestamp),
                forall|i: int| 0 <= i < out@.len() ==> (#[trigger] out@[i])@ == datagram(
                    sequence_after(start, i),
                    ts,
                    frags[i],
                ),
            ensures
                out@.len() == frags.len(),
                self.sequence == sequence_after(start, out@.len() as int),
                forall|i: int| 0 <= i < out@.len() ==> (#[trigger] out@[i])@ == datagram(
                    sequence_after(start, i),
                    ts,
                    frags[i],
                ),
            decreases packetizer.pending().len(),
        {
            let ghost before = packetizer.pending();
            let fragment = match packetizer.next() {
                Some(f) => f,
                None => {
                    assert(frags.skip(out@.len() as int).len() == 0);
                    break;
                },
            };
            let mut header = Header::zeroed();
            header.set_version(2);
            header.set_payload_type(PAYLOAD_TYPE);
            header.set_sequence(self.sequence);
            header.set_timestamp(ts);
            let mut packet: Vec<u8> = Vec::new();
            header.write_to(&mut packet);
            packet.push(fragment.indicator);
            packet.push(fragment.header);
            packet.extend_from_slice(fragment.payload);
            proof {
                assert(header == packet_header(self.sequence, ts));
                assert(before[0] == frags[out@.len() as int]);
                assert(packet@ =~= datagram(self.sequence, ts, frags[out@.len() as int]));
                assert(packetizer.pending() =~= frags.skip(out@.len() + 1int));
            }
            out.push(packet);
            self.sequence = self.sequence.wrapping_add(1);
        }
        out
    }
}

} // verus!

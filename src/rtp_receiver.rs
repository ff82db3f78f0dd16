//! Per-datagram decisions of an RTP receiver: source tracking, loss detection,
//! resynchronisation and hand-off of reassembled NAL units.
use vstd::prelude::*;

use crate::address::SocketAddress;
use crate::depacketizer::{depacketize, long_start_code, push_bytes, wire, Depacketizer};
use crate::packetizer::FragmentSpec;
use crate::rtp_packet::{header_bytes, lemma_packet_round_trip};
use crate::rtp_sender::{datagram, packet_header, sequence_after};
use crate::fragment::{end_bit, start_bit, Fragment};
use crate::rtp_packet::{parse_header, Packet, HEADER_SIZE};

verus! {

/// Why a datagram was refused.
#[derive(Clone, Copy, Debug, PartialEq, Eq, Structural)]
pub enum ReceiveError {
    /// Shorter than an RTP header followed by the two FU-A bytes.
    Malformed,
}

/// The receiver's state as plain values.
pub struct ReceiverView {
    pub buffer: Seq<u8>,
    pub complete: bool,
    pub source: Option<SocketAddress>,
    pub sequence: u16,
    pub timestamp: u32,
    pub dropping: bool,
}

/// Smallest datagram that carries a fragment.
pub open spec fn min_datagram() -> nat {
    HEADER_SIZE as nat + 2
}

/// The state after a well-formed datagram `d` from `from`, and the NAL unit
/// bytes handed on, if any.
pub open spec fn receive_step(s: ReceiverView, d: Seq<u8>, from: SocketAddress) -> (ReceiverView, Option<Seq<u8>>) {
    let h = parse_header(d);
    let f = d.skip(HEADER_SIZE as int);
    let switched = s.source is Some && s.source != Some(from);
    let in_sequence = h.sequence == ((s.sequence + 1) % 0x1_0000) as u16;
    let dropping = s.dropping || switched || !in_sequence;
    let flush = h.timestamp != s.timestamp;
    let out = if flush && s.complete { Some(s.buffer) } else { None };
    let buffer = if flush { Seq::<u8>::empty() } else { s.buffer };
    let complete = if flush { false } else { s.complete };
    // a continuation with no unit to continue is a loss too
    let dropping = dropping || (!start_bit(f[1]) && buffer.len() == 0);
    let accept = if dropping { start_bit(f[1]) } else { in_sequence };
    if !accept {
        (ReceiverView { buffer, complete, source: Some(from), sequence: s.sequence, timestamp: h.timestamp, dropping }, out)
    } else {
        let base = if dropping { Seq::<u8>::empty() } else { buffer };
        (
            ReceiverView {
                buffer: push_bytes(base, f),
                complete: end_bit(f[1]),
                source: Some(from),
                sequence: h.sequence,
                timestamp: h.timestamp,
                dropping: false,
            },
            out,
        )
    }
}

/// Reassembles NAL units from RTP datagrams.
///
/// A packet whose sequence number does not follow the previous one, one
/// from a new source, or a continuation fragment when no unit is being built,
/// starts a drop: the unit being built is discarded and nothing is taken
/// until a fragment with the start bit comes. When the
/// timestamp changes, a complete unit is handed on and the buffer starts anew.
pub struct Receiver {
    depacketizer: Depacketizer,
    source: Option<SocketAddress>,
    sequence: u16,
    timestamp: u32,
    dropping: bool,
}

impl Receiver {
    pub closed spec fn view(self) -> ReceiverView {
        ReceiverView {
            buffer: self.depacketizer.buffer(),
            complete: self.depacketizer.is_complete(),
            source: self.source,
            sequence: self.sequence,
            timestamp: self.timestamp,
            dropping: self.dropping,
        }
    }

    pub fn new() -> (r: Receiver)
        ensures
            r.view() == (ReceiverView {
                buffer: Seq::empty(),
                complete: false,
                source: None,
                sequence: 0,
                timestamp: 0,
                dropping: false,
            }),
    {
        Receiver { depacketizer: Depacketizer::new(), source: None, sequence: 0, timestamp: 0, dropping: false }
    }

    /// Takes one datagram from `from`; returns the NAL unit bytes that it completes, if any.
    pub fn receive(&mut self, datagram: &[u8], from: SocketAddress) -> (r: Result<Option<Vec<u8>>, ReceiveError>)
        ensures
            datagram@.len() < min_datagram() ==> r == Err::<Option<Vec<u8>>, ReceiveError>(ReceiveError::Malformed)
                && final(self).view() == old(self).view(),
            datagram@.len() >= min_datagram() ==> r is Ok && ({
                let (next, out) = receive_step(old(self).view(), datagram@, from);
                &&& final(self).view() == next
                &&& match r {
                    Ok(Some(u)) => out == Some(u@),
                    _ => out is None,
                }
            }),
    {
        if datagram.len() < HEADER_SIZE + 2 {
            return Err(ReceiveError::Malformed);
        }
        let packet = match Packet::parse(datagram) {
            Some(p) => p,
            None => return Err(ReceiveError::Malformed),
        };
        let fragment = match Fragment::parse(packet.payload()) {
            Some(f) => f,
            None => return Err(ReceiveError::Malformed),
        };
        let header = packet.header();

        match self.source {
            Some(current) => {
                if current != from {
                    self.dropping = true;
                    self.source = Some(from);
                }
            },
            None => {
                self.source = Some(from);
            },
        }

        let sequence = header.sequence();
        let in_sequence = sequence == self.sequence.wrapping_add(1);
        if !in_sequence && !self.dropping {
            self.dropping = true;
        }

        let mut out: Option<Vec<u8>> = None;
        let timestamp = header.timestamp();
        if self.timestamp != timestamp {
            if self.depacketizer.complete() {
                out = Some(vstd::slice::slice_to_vec(self.depacketizer.bytes()));
            }
            self.timestamp = timestamp;
            self.depacketizer.clear();
        }

        if !fragment.header().is_first() && self.depacketizer.bytes().len() == 0 {
            self.dropping = true;
        }
        let accept = if self.dropping { fragment.header().is_first() } else { in_sequence };
        if !accept {
            return Ok(out);
        }
        if self.dropping {
            self.depacketizer.clear();
        }
        self.dropping = false;
        self.sequence = sequence;
        self.depacketizer.push(fragment);
        Ok(out)
    }
}

/// The state after any datagram: a malformed one changes nothing.
pub open spec fn receive_any(s: ReceiverView, d: Seq<u8>, from: SocketAddress) -> (ReceiverView, Option<Seq<u8>>) {
    if d.len() < min_datagram() {
        (s, None)
    } else {
        receive_step(s, d, from)
    }
}

/// The state after the datagrams `ds`, all from `from`, and the units handed on meanwhile.
pub open spec fn receive_all(s: ReceiverView, ds: Seq<Seq<u8>>, from: SocketAddress) -> (ReceiverView, Seq<Seq<u8>>)
    decreases ds.len(),
{
    if ds.len() == 0 {
        (s, seq![])
    } else {
        let (next, out) = receive_any(s, ds[0], from);
        let (last, outs) = receive_all(next, ds.drop_first(), from);
        (last, match out {
            Some(u) => seq![u] + outs,
            None => outs,
        })
    }
}

/// The datagrams that a sender numbering on from `start` makes of `frags` at timestamp `ts`.
pub open spec fn datagrams(start: u16, ts: u32, frags: Seq<FragmentSpec>) -> Seq<Seq<u8>> {
    Seq::new(frags.len(), |i: int| datagram(sequence_after(start, i), ts, frags[i]))
}

/// Datagrams that arrive in order from the current source, numbered on from
/// the last accepted one and carrying the timestamp being collected, are all
/// taken, provided the first one opens a unit or continues the one being built: nothing is handed on, and the buffer becomes what the depacketizer
/// makes of their fragments.
pub proof fn lemma_in_order_delivery(s: ReceiverView, from: SocketAddress, ts: u32, frags: Seq<FragmentSpec>)
    requires
        s.source == Some(from),
        !s.dropping,
        s.timestamp == ts,
        s.buffer.len() > 0 || frags.len() == 0 || start_bit(frags[0].1),
    ensures
        receive_all(s, datagrams(sequence_after(s.sequence, 1), ts, frags), from) == (
            ReceiverView {
                buffer: depacketize(s.buffer, frags),
                complete: if frags.len() == 0 { s.complete } else { end_bit(frags.last().1) },
                source: Some(from),
                sequence: sequence_after(s.sequence, frags.len() as int),
                timestamp: ts,
                dropping: false,
            },
            Seq::<Seq<u8>>::empty(),
        ),
    decreases frags.len(),
{
    let ds = datagrams(sequence_after(s.sequence, 1), ts, frags);
    if frags.len() == 0 {
        assert(s.sequence == sequence_after(s.sequence, 0));
        assert(s == ReceiverView { source: Some(from), dropping: false, timestamp: ts, ..s });
    } else {
        let f = frags[0];
        let seq1 = sequence_after(s.sequence, 1);
        let d = ds[0];
        assert(seq1 == sequence_after(seq1, 0));
        assert(d == header_bytes(packet_header(seq1, ts)) + wire(f));
        lemma_packet_round_trip(packet_header(seq1, ts), wire(f));
        assert(d.len() >= min_datagram());
        let (next, out) = receive_step(s, d, from);
        assert(out is None);
        assert(next == ReceiverView {
            buffer: push_bytes(s.buffer, wire(f)),
            complete: end_bit(f.1),
            source: Some(from),
            sequence: seq1,
            timestamp: ts,
            dropping: false,
        }) by {
            assert(wire(f)[1] == f.1);
        }
        let rest = frags.drop_first();
        assert(next.buffer.len() > 0) by {
            assert(wire(f)[1] == f.1);
        }
        lemma_in_order_delivery(next, from, ts, rest);
        assert forall|i: int| 0 <= i < rest.len() implies sequence_after(sequence_after(seq1, 1), i)
            == sequence_after(seq1, i + 1) by {
            vstd::arithmetic::div_mod::lemma_add_mod_noop(seq1 + 1, i, 0x1_0000);
            vstd::arithmetic::div_mod::lemma_mod_twice(seq1 + 1, 0x1_0000);
            vstd::arithmetic::div_mod::lemma_add_mod_noop(seq1 + 1 + i, 0, 0x1_0000);
            vstd::arithmetic::div_mod::lemma_small_mod(i as nat % 0x1_0000, 0x1_0000);
        }
        assert(ds.drop_first() =~= datagrams(sequence_after(seq1, 1), ts, rest));
        assert(sequence_after(seq1, rest.len() as int) == sequence_after(s.sequence, frags.len() as int)) by {
            vstd::arithmetic::div_mod::lemma_add_mod_noop(s.sequence + 1, rest.len() as int, 0x1_0000);
            vstd::arithmetic::div_mod::lemma_mod_twice(s.sequence + 1, 0x1_0000);
            vstd::arithmetic::div_mod::lemma_small_mod(rest.len() as nat % 0x1_0000, 0x1_0000);
        }
        if rest.len() > 0 {
            assert(rest.last() == frags.last());
        }
    }
}

/// The buffer is empty, or holds a unit opened by a start fragment: it begins
/// with the four-byte start code and the rebuilt NAL header.
pub open spec fn opens_unit(b: Seq<u8>) -> bool {
    b.len() == 0 || (b.len() > 4 && b.take(4) == long_start_code())
}

/// What holds of the receiver's state between datagrams.
pub open spec fn state_ok(s: ReceiverView) -> bool {
    opens_unit(s.buffer) && (s.complete ==> s.buffer.len() > 0)
}

proof fn lemma_push_opens(b: Seq<u8>, f: Seq<u8>)
    requires
        opens_unit(b),
        f.len() >= 2,
        b.len() > 0 || start_bit(f[1]),
    ensures
        opens_unit(push_bytes(b, f)),
        push_bytes(b, f).len() > 0,
{
    let p = push_bytes(b, f);
    if b.len() == 0 {
        assert(p.take(4) =~= long_start_code());
    } else {
        assert(p.take(4) =~= b.take(4));
    }
}

proof fn lemma_step_keeps_state(s: ReceiverView, d: Seq<u8>, from: SocketAddress)
    requires
        state_ok(s),
    ensures
        state_ok(receive_any(s, d, from).0),
        receive_any(s, d, from).1 matches Some(u) ==> u.len() > 4 && u.take(4) == long_start_code(),
{
    if d.len() >= min_datagram() {
        let f = d.skip(HEADER_SIZE as int);
        let (next, out) = receive_step(s, d, from);
        let flush = parse_header(d).timestamp != s.timestamp;
        let buffer = if flush { Seq::<u8>::empty() } else { s.buffer };
        if next.buffer != buffer {
            let switched = s.source is Some && s.source != Some(from);
            let in_sequence = parse_header(d).sequence == ((s.sequence + 1) % 0x1_0000) as u16;
            let dropping = s.dropping || switched || !in_sequence || (!start_bit(f[1]) && buffer.len() == 0);
            let base = if dropping { Seq::<u8>::empty() } else { buffer };
            lemma_push_opens(base, f);
        }
    }
}

/// Whatever datagrams arrive, from whatever sources and in whatever order,
/// every unit the receiver hands on is non-empty and begins with the
/// four-byte start code that a start fragment put there: no unit is handed
/// on that was not opened by its start fragment.
pub proof fn lemma_units_open_with_start(s: ReceiverView, ds: Seq<Seq<u8>>, from: SocketAddress)
    requires
        state_ok(s),
    ensures
        state_ok(receive_all(s, ds, from).0),
        forall|i: int| 0 <= i < receive_all(s, ds, from).1.len() ==> {
            let u = #[trigger] receive_all(s, ds, from).1[i];
            u.len() > 4 && u.take(4) == long_start_code()
        },
    decreases ds.len(),
{
    if ds.len() > 0 {
        lemma_step_keeps_state(s, ds[0], from);
        let (next, out) = receive_any(s, ds[0], from);
        lemma_units_open_with_start(next, ds.drop_first(), from);
        let outs = receive_all(next, ds.drop_first(), from).1;
        match out {
            Some(u) => {
                let all = seq![u] + outs;
                assert forall|i: int| 0 <= i < all.len() implies {
                    let v = #[trigger] all[i];
                    v.len() > 4 && v.take(4) == long_start_code()
                } by {
                    if i > 0 {
                        assert(all[i] == outs[i - 1]);
                    }
                }
            },
            None => {},
        }
    }
}

} // verus!

//! RTP fixed header (RFC 3550) and packet: parsing and serialisation.
use vstd::prelude::*;

verus! {

/// Length of the fixed RTP header.
pub const HEADER_SIZE: usize = 12;

/// Big-endian 16-bit value of two bytes.
pub open spec fn be16(a: u8, b: u8) -> u16 {
    ((a as u16) << 8u16) | (b as u16)
}

/// Big-endian 32-bit value of four bytes.
pub open spec fn be32(a: u8, b: u8, c: u8, d: u8) -> u32 {
    ((a as u32) << 24u32) | ((b as u32) << 16u32) | ((c as u32) << 8u32) | (d as u32)
}

/// Big-endian bytes of a 16-bit value.
pub open spec fn be16_bytes(x: u16) -> Seq<u8> {
    seq![((x >> 8u16) & 0xff) as u8, (x & 0xff) as u8]
}

/// Big-endian bytes of a 32-bit value.
pub open spec fn be32_bytes(x: u32) -> Seq<u8> {
    seq![
        ((x >> 24u32) & 0xff) as u8,
        ((x >> 16u32) & 0xff) as u8,
        ((x >> 8u32) & 0xff) as u8,
        (x & 0xff) as u8,
    ]
}

//   0               1               2               3
//   7 6 5 4 3 2 1 0 7 6 5 4 3 2 1 0 7 6 5 4 3 2 1 0 7 6 5 4 3 2 1 0
//  +-+-+-+-+-+-+-+-+-+-+-+-+-+-+-+-+-+-+-+-+-+-+-+-+-+-+-+-+-+-+-+-+
//  |V=2|P|X|  CC   |M|     PT      |       sequence number         |
//  +-+-+-+-+-+-+-+-+-+-+-+-+-+-+-+-+-+-+-+-+-+-+-+-+-+-+-+-+-+-+-+-+
//  |                           timestamp                           |
//  +-+-+-+-+-+-+-+-+-+-+-+-+-+-+-+-+-+-+-+-+-+-+-+-+-+-+-+-+-+-+-+-+
//  |           synchronization source (SSRC) identifier            |
//  +=+=+=+=+=+=+=+=+=+=+=+=+=+=+=+=+=+=+=+=+=+=+=+=+=+=+=+=+=+=+=+=+
/// The twelve octets present in every RTP packet. `flags` holds version,
/// padding, extension and CSRC count; `payload_type` holds the marker bit too.
#[derive(Clone, Copy, Debug, PartialEq, Eq)]
pub struct Header {
    pub flags: u8,
    pub payload_type: u8,
    pub sequence: u16,
    pub timestamp: u32,
    pub ssrc: u32,
}

/// The header's wire bytes.
pub open spec fn header_bytes(h: Header) -> Seq<u8> {
    seq![h.flags, h.payload_type] + be16_bytes(h.sequence) + be32_bytes(h.timestamp) + be32_bytes(h.ssrc)
}

/// The header that the first twelve bytes of `s` encode.
pub open spec fn parse_header(s: Seq<u8>) -> Header {
    Header {
        flags: s[0],
        payload_type: s[1],
        sequence: be16(s[2], s[3]),
        timestamp: be32(s[4], s[5], s[6], s[7]),
        ssrc: be32(s[8], s[9], s[10], s[11]),
    }
}

impl Header {
    /// A header with every field zero.
    pub fn zeroed() -> (r: Header)
        ensures
            r == (Header { flags: 0, payload_type: 0, sequence: 0, timestamp: 0, ssrc: 0 }),
    {
        Header { flags: 0, payload_type: 0, sequence: 0, timestamp: 0, ssrc: 0 }
    }

    pub fn version(&self) -> (r: u8)
        ensures
            r == self.flags / 64,
    {
        let f = self.flags;
        assert(f >> 6u8 == f / 64) by (bit_vector);
        self.flags >> 6
    }

    /// Sets the version, the two top bits of `flags`, and keeps the other bits.
    pub fn set_version(&mut self, version: u8)
        requires
            version < 4,
        ensures
            final(self).flags / 64 == version,
            final(self).flags % 64 == old(self).flags % 64,
            *final(self) == (Header { flags: final(self).flags, ..*old(self) }),
    {
        let f = self.flags;
        assert(version < 4 ==> ((f & 0x3f) | (version << 6u8)) / 64 == version
            && ((f & 0x3f) | (version << 6u8)) % 64 == f % 64) by (bit_vector);
        self.flags = (self.flags & 0x3f) | (version << 6);
    }

    pub fn has_padding(&self) -> (r: bool)
        ensures
            r == (self.flags & 0x20 != 0),
    {
        (self.flags & 0x20) != 0
    }

    pub fn set_padding(&mut self, pad: bool)
        ensures
            *final(self) == (Header {
                flags: if pad { old(self).flags | 0x20 } else { old(self).flags & !0x20u8 },
                ..*old(self)
            }),
    {
        if pad {
            self.flags = self.flags | 0x20;
        } else {
            self.flags = self.flags & !0x20u8;
        }
    }

    pub fn has_extensions(&self) -> (r: bool)
        ensures
            r == (self.flags & 0x10 != 0),
    {
        (self.flags & 0x10) != 0
    }

    pub fn set_extensions(&mut self, ext: bool)
        ensures
            *final(self) == (Header {
                flags: if ext { old(self).flags | 0x10 } else { old(self).flags & !0x10u8 },
                ..*old(self)
            }),
    {
        if ext {
            self.flags = self.flags | 0x10;
        } else {
            self.flags = self.flags & !0x10u8;
        }
    }

    pub fn contributors_count(&self) -> (r: u8)
        ensures
            r == self.flags % 16,
    {
        let f = self.flags;
        assert(f & 0b1111 == f % 16) by (bit_vector);
        self.flags & 0b1111
    }

    pub fn marked(&self) -> (r: bool)
        ensures
            r == (self.payload_type >= 128),
    {
        let p = self.payload_type;
        assert((p & 0x80 != 0) == (p >= 128)) by (bit_vector);
        (self.payload_type & 0x80) != 0
    }

    pub fn payload_type(&self) -> (r: u8)
        ensures
            r == self.payload_type % 128,
    {
        let p = self.payload_type;
        assert(p & !0x80u8 == p % 128) by (bit_vector);
        self.payload_type & !0x80u8
    }

    /// Sets the payload type and keeps the marker bit.
    pub fn set_payload_type(&mut self, t: u8)
        requires
            t < 128,
        ensures
            final(self).payload_type % 128 == t,
            (final(self).payload_type >= 128) == (old(self).payload_type >= 128),
            *final(self) == (Header { payload_type: final(self).payload_type, ..*old(self) }),
    {
        let p = self.payload_type;
        assert(t < 128 ==> ((p & 0x80) | t) % 128 == t && (((p & 0x80) | t) >= 128) == (p >= 128))
            by (bit_vector);
        self.payload_type = (self.payload_type & 0x80) | t;
    }

    pub fn sequence(&self) -> (r: u16)
        ensures
            r == self.sequence,
    {
        self.sequence
    }

    pub fn set_sequence(&mut self, seq: u16)
        ensures
            *final(self) == (Header { sequence: seq, ..*old(self) }),
    {
        self.sequence = seq;
    }

    pub fn timestamp(&self) -> (r: u32)
        ensures
            r == self.timestamp,
    {
        self.timestamp
    }

    pub fn set_timestamp(&mut self, t: u32)
        ensures
            *final(self) == (Header { timestamp: t, ..*old(self) }),
    {
        self.timestamp = t;
    }

    pub fn ssrc(&self) -> (r: u32)
        ensures
            r == self.ssrc,
    {
        self.ssrc
    }

    pub fn set_ssrc(&mut self, ssrc: u32)
        ensures
            *final(self) == (Header { ssrc, ..*old(self) }),
    {
        self.ssrc = ssrc;
    }

    /// Appends the twelve header bytes to `out`.
    pub fn write_to(&self, out: &mut Vec<u8>)
        ensures
            final(out)@ == old(out)@ + header_bytes(*self),
    {
        let s = self.sequence;
        let t = self.timestamp;
        let c = self.ssrc;
        out.push(self.flags);
        out.push(self.payload_type);
        out.push(((s >> 8) & 0xff) as u8);
        out.push((s & 0xff) as u8);
        out.push(((t >> 24) & 0xff) as u8);
        out.push(((t >> 16) & 0xff) as u8);
        out.push(((t >> 8) & 0xff) as u8);
        out.push((t & 0xff) as u8);
        out.push(((c >> 24) & 0xff) as u8);
        out.push(((c >> 16) & 0xff) as u8);
        out.push(((c >> 8) & 0xff) as u8);
        out.push((c & 0xff) as u8);
        assert(final(out)@ =~= old(out)@ + header_bytes(*self));
    }
}

/// Reads the header at the start of `s`, which holds at least twelve bytes.
fn read_header(s: &[u8]) -> (h: Header)
    requires
        s@.len() >= HEADER_SIZE,
    ensures
        h == parse_header(s@),
{
    Header {
        flags: s[0],
        payload_type: s[1],
        sequence: ((s[2] as u16) << 8) | (s[3] as u16),
        timestamp: ((s[4] as u32) << 24) | ((s[5] as u32) << 16) | ((s[6] as u32) << 8) | (s[7] as u32),
        ssrc: ((s[8] as u32) << 24) | ((s[9] as u32) << 16) | ((s[10] as u32) << 8) | (s[11] as u32),
    }
}

/// An RTP packet: fixed header and payload.
pub struct Packet {
    header: Header,
    payload: Vec<u8>,
}

impl Packet {
    pub closed spec fn spec_header(self) -> Header {
        self.header
    }

    pub closed spec fn spec_payload(self) -> Seq<u8> {
        self.payload@
    }

    /// Splits `bytes` into header and payload; `None` when shorter than a header.
    pub fn parse(bytes: &[u8]) -> (r: Option<Packet>)
        ensures
            r is Some <==> bytes@.len() >= HEADER_SIZE,
            r matches Some(p) ==> p.spec_header() == parse_header(bytes@)
                && p.spec_payload() == bytes@.skip(HEADER_SIZE as int),
    {
        if bytes.len() < HEADER_SIZE {
            return None;
        }
        let header = read_header(bytes);
        let payload = vstd::slice::slice_to_vec(vstd::slice::slice_subrange(bytes, HEADER_SIZE, bytes.len()));
        Some(Packet { header, payload })
    }

    /// A packet over `bytes` with its header zeroed; `None` when shorter than a header.
    pub fn new(bytes: &[u8]) -> (r: Option<Packet>)
        ensures
            r is Some <==> bytes@.len() >= HEADER_SIZE,
            r matches Some(p) ==> p.spec_header() == (Header { flags: 0, payload_type: 0, sequence: 0, timestamp: 0, ssrc: 0 })
                && p.spec_payload() == bytes@.skip(HEADER_SIZE as int),
    {
        if bytes.len() < HEADER_SIZE {
            return None;
        }
        let payload = vstd::slice::slice_to_vec(vstd::slice::slice_subrange(bytes, HEADER_SIZE, bytes.len()));
        Some(Packet { header: Header::zeroed(), payload })
    }

    pub fn header(&self) -> (r: &Header)
        ensures
            *r == self.spec_header(),
    {
        &self.header
    }

    pub fn payload(&self) -> (r: &[u8])
        ensures
            r@ == self.spec_payload(),
    {
        self.payload.as_slice()
    }

    pub fn header_mut(&mut self) -> (r: &mut Header)
        ensures
            *r == old(self).spec_header(),
            final(self).spec_header() == *final(r),
            final(self).spec_payload() == old(self).spec_payload(),
    {
        &mut self.header
    }

    pub fn payload_mut(&mut self) -> (r: &mut Vec<u8>)
        ensures
            r@ == old(self).spec_payload(),
            final(self).spec_payload() == final(r)@,
            final(self).spec_header() == old(self).spec_header(),
    {
        &mut self.payload
    }

    /// The packet's wire bytes: header, then payload.
    pub fn to_bytes(&self) -> (r: Vec<u8>)
        ensures
            r@ == header_bytes(self.spec_header()) + self.spec_payload(),
    {
        let mut out: Vec<u8> = Vec::new();
        self.header.write_to(&mut out);
        out.extend_from_slice(self.payload.as_slice());
        assert(out@ =~= header_bytes(self.header) + self.payload@);
        out
    }
}

/// Serialising a header and a payload, then parsing the bytes, gives back the
/// same header fields and the same payload.
pub proof fn lemma_packet_round_trip(h: Header, payload: Seq<u8>)
    ensures
        (header_bytes(h) + payload).len() >= HEADER_SIZE,
        parse_header(header_bytes(h) + payload) == h,
        (header_bytes(h) + payload).skip(HEADER_SIZE as int) == payload,
{
    let s = header_bytes(h) + payload;
    let (q, t, c) = (h.sequence, h.timestamp, h.ssrc);
    assert(be16(((q >> 8u16) & 0xff) as u8, (q & 0xff) as u8) == q) by (bit_vector);
    assert(be32(((t >> 24u32) & 0xff) as u8, ((t >> 16u32) & 0xff) as u8, ((t >> 8u32) & 0xff) as u8,
        (t & 0xff) as u8) == t) by (bit_vector);
    assert(be32(((c >> 24u32) & 0xff) as u8, ((c >> 16u32) & 0xff) as u8, ((c >> 8u32) & 0xff) as u8,
        (c & 0xff) as u8) == c) by (bit_vector);
    assert(s[2] == ((q >> 8u16) & 0xff) as u8 && s[3] == (q & 0xff) as u8);
    assert(s[4] == ((t >> 24u32) & 0xff) as u8 && s[7] == (t & 0xff) as u8);
    assert(s[8] == ((c >> 24u32) & 0xff) as u8 && s[11] == (c & 0xff) as u8);
    assert(s.skip(HEADER_SIZE as int) =~= payload);
}

} // verus!

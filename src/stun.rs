//! STUN messages (RFC 5389): the binding request and the address attributes of a response.
use vstd::prelude::*;

use crate::address::{IpAddress, SocketAddress};
use crate::rtp_packet::{be16, be32};

verus! {

/// The magic cookie `0x2112A442`.
pub const MAGIC_COOKIE: u32 = 0x2112A442;

/// Length of a STUN message header.
pub const HEADER_SIZE: usize = 20;

pub const MAPPED_ADDRESS: u16 = 0x01;

pub const XOR_MAPPED_ADDRESS: u16 = 0x20;

/// Byte `i` of the magic cookie, most significant first.
pub open spec fn magic_byte(i: int) -> u8 {
    if i == 0 {
        0x21
    } else if i == 1 {
        0x12
    } else if i == 2 {
        0xA4
    } else {
        0x42
    }
}

/// Big-endian value of a byte sequence.
pub open spec fn be_value(s: Seq<u8>) -> nat
    decreases s.len(),
{
    if s.len() == 0 {
        0
    } else {
        (be_value(s.drop_last()) * 256 + s.last()) as nat
    }
}

/// `256^n`.
pub open spec fn byte_limit(n: nat) -> nat
    decreases n,
{
    if n == 0 {
        1
    } else {
        256 * byte_limit((n - 1) as nat)
    }
}

//   0               1               2               3
//  +-+-+-+-+-+-+-+-+-+-+-+-+-+-+-+-+-+-+-+-+-+-+-+-+-+-+-+-+-+-+-+-+
//  |0 0|   STUN Message Type     |       Message Length            |
//  +-+-+-+-+-+-+-+-+-+-+-+-+-+-+-+-+-+-+-+-+-+-+-+-+-+-+-+-+-+-+-+-+
//  |                        Magic Cookie                           |
//  +-+-+-+-+-+-+-+-+-+-+-+-+-+-+-+-+-+-+-+-+-+-+-+-+-+-+-+-+-+-+-+-+
//  |             Transaction ID (96 bits, 12 bytes)                |
//  +-+-+-+-+-+-+-+-+-+-+-+-+-+-+-+-+-+-+-+-+-+-+-+-+-+-+-+-+-+-+-+-+
/// A STUN message header.
#[derive(Clone, Copy, Debug, PartialEq, Eq)]
pub struct Header {
    pub type_: u16,
    pub len: u16,
    pub cookie: u32,
    pub id: [u8; 12],
}

/// Class of a message type: its bits 8 (high) and 4 (low).
pub open spec fn class_of(t: u16) -> u8 {
    (((t >> 7u16) & 2) | ((t >> 4u16) & 1)) as u8
}

/// Method of a message type: bits 0-3 kept in place, bits 5-7 and 9-13 moved down one place.
pub open spec fn method_of(t: u16) -> u16 {
    (t & 0xf) | ((t & 0xe0) >> 1u16) | ((t & 0x3e00) >> 1u16)
}

impl Header {
    pub fn id(&self) -> (r: &[u8; 12])
        ensures
            *r == self.id,
    {
        &self.id
    }

    pub fn class(&self) -> (r: u8)
        ensures
            r == class_of(self.type_),
    {
        let t = self.type_;
        let msb = (t >> 8) as u8;
        let lsb = (t & 0xff) as u8;
        assert((((((t >> 8u16) as u8) & 1) << 1u8) | ((((t & 0xff) as u8) & 0x10) >> 4u8)) == class_of(t))
            by (bit_vector);
        ((msb & 1) << 1) | ((lsb & 0x10) >> 4)
    }

    pub fn method(&self) -> (r: u16)
        ensures
            r == method_of(self.type_),
    {
        let t = self.type_;
        let msb = (t >> 8) as u16;
        let lsb = (t & 0xff) as u16;
        assert(((((t >> 8u16) as u16) & 0b0011_1110) << 7u16) | (((t & 0xff) & 0b1110_0000) >> 1u16)
            | ((t & 0xff) & 0b0000_1111) == method_of(t)) by (bit_vector);
        ((msb & 0b0011_1110) << 7) | ((lsb & 0b1110_0000) >> 1) | (lsb & 0b0000_1111)
    }
}

/// An attribute of a STUN message.
#[derive(Debug, PartialEq, Eq)]
pub enum Attribute {
    Unknown(u16, Vec<u8>),
    MappedAddress(SocketAddress),
    XorMappedIpAddr(SocketAddress),
}

/// An attribute as plain values.
pub enum AttributeSpec {
    Unknown(u16, Seq<u8>),
    MappedAddress(SocketAddress),
    XorMappedIpAddr(SocketAddress),
}

impl Attribute {
    pub open spec fn view(self) -> AttributeSpec {
        match self {
            Attribute::Unknown(t, d) => AttributeSpec::Unknown(t, d@),
            Attribute::MappedAddress(a) => AttributeSpec::MappedAddress(a),
            Attribute::XorMappedIpAddr(a) => AttributeSpec::XorMappedIpAddr(a),
        }
    }
}

/// Address attribute body with the XOR mask taken off when `xor` is set:
/// port bytes against the cookie's top two bytes, address bytes against the cookie, repeated.
pub open spec fn unmasked(body: Seq<u8>, xor: bool) -> Seq<u8> {
    Seq::new(
        body.len(),
        |i: int|
            if xor && 2 <= i < 4 {
                body[i] ^ magic_byte(i - 2)
            } else if xor && i >= 4 {
                body[i] ^ magic_byte(i % 4)
            } else {
                body[i]
            },
    )
}

/// The address an address attribute body holds: family 1 with 8 bytes is IPv4,
/// family 2 with 20 bytes is IPv6.
pub open spec fn address_of(body: Seq<u8>, xor: bool) -> Option<SocketAddress> {
    let u = unmasked(body, xor);
    if body.len() < 2 {
        None
    } else if body[1] == 1 && body.len() == 8 {
        Some(SocketAddress { ip: IpAddress::V4(be32(u[4], u[5], u[6], u[7])), port: be16(u[2], u[3]) })
    } else if body[1] == 2 && body.len() == 20 {
        Some(SocketAddress { ip: IpAddress::V6(be_value(u.subrange(4, 20)) as u128), port: be16(u[2], u[3]) })
    } else {
        None
    }
}

/// Bytes that an attribute body of length `len` takes with its padding to a
/// multiple of four, as far as `available` bytes allow.
pub open spec fn padded_len(len: int, available: int) -> int {
    let padded = len + (4 - len % 4) % 4;
    if padded > available {
        available
    } else {
        padded
    }
}

/// The attribute at the start of `s` and what follows it, past the body's
/// padding to a multiple of four; `None` when there is none to read.
pub open spec fn attribute_at(s: Seq<u8>) -> Option<(AttributeSpec, Seq<u8>)> {
    if s.len() < 4 {
        None
    } else {
        let t = be16(s[0], s[1]);
        let len = be16(s[2], s[3]) as int;
        let data = s.skip(4);
        if len > data.len() {
            None
        } else {
            let body = data.take(len);
            let rest = data.skip(padded_len(len, data.len() as int));
            if t == MAPPED_ADDRESS {
                match address_of(body, false) {
                    Some(a) => Some((AttributeSpec::MappedAddress(a), rest)),
                    None => None,
                }
            } else if t == XOR_MAPPED_ADDRESS {
                match address_of(body, true) {
                    Some(a) => Some((AttributeSpec::XorMappedIpAddr(a), rest)),
                    None => None,
                }
            } else {
                Some((AttributeSpec::Unknown(t, body), rest))
            }
        }
    }
}

/// The attributes read one after another from `s`, up to the first that cannot be read.
pub open spec fn attributes_spec(s: Seq<u8>) -> Seq<AttributeSpec>
    decreases s.len(),
{
    match attribute_at(s) {
        Some((a, rest)) => if rest.len() < s.len() {
            seq![a] + attributes_spec(rest)
        } else {
            seq![a]
        },
        None => seq![],
    }
}

proof fn lemma_be_value_bound(s: Seq<u8>)
    ensures
        be_value(s) < byte_limit(s.len()),
    decreases s.len(),
{
    if s.len() > 0 {
        lemma_be_value_bound(s.drop_last());
        let v = be_value(s.drop_last());
        let l = byte_limit((s.len() - 1) as nat);
        assert(v * 256 + s.last() < 256 * l) by (nonlinear_arith)
            requires
                v < l,
                s.last() < 256,
        ;
    }
}

/// Big-endian value of up to sixteen bytes.
fn read_be(s: &[u8]) -> (r: u128)
    requires
        s@.len() <= 16,
    ensures
        r == be_value(s@),
{
    proof {
        reveal_with_fuel(byte_limit, 17);
    }
    let mut v: u128 = 0;
    let mut i: usize = 0;
    while i < s.len()
        invariant
            i <= s@.len() <= 16,
            v == be_value(s@.take(i as int)),
        decreases s@.len() - i,
    {
        proof {
            reveal_with_fuel(byte_limit, 17);
            lemma_be_value_bound(s@.take(i as int));
            assert(byte_limit(i as nat) <= byte_limit(15)) by {
                lemma_limit_monotone(i as nat, 15);
            }
            assert(s@.take(i + 1int).drop_last() =~= s@.take(i as int));
        }
        assert(v * 256 + 255 <= u128::MAX) by (nonlinear_arith)
            requires
                v < byte_limit(15),
                byte_limit(15) == 0x1_0000_0000_0000_0000_0000_0000_0000_00,
        ;
        v = v * 256 + s[i] as u128;
        i = i + 1;
    }
    assert(s@.take(s@.len() as int) =~= s@);
    v
}

proof fn lemma_limit_monotone(a: nat, b: nat)
    requires
        a <= b,
    ensures
        byte_limit(a) <= byte_limit(b),
    decreases b - a,
{
    if a < b {
        lemma_limit_monotone(a, (b - 1) as nat);
        assert(byte_limit(b) == 256 * byte_limit((b - 1) as nat));
    }
}

/// The body with its XOR mask taken off.
fn unmask(body: &[u8], xor: bool) -> (r: Vec<u8>)
    ensures
        r@ == unmasked(body@, xor),
{
    let mut out: Vec<u8> = Vec::new();
    let mut i: usize = 0;
    while i < body.len()
        invariant
            i <= body@.len(),
            out@ == unmasked(body@, xor).take(i as int),
        decreases body@.len() - i,
    {
        let b = body[i];
        let key: u8 = if i % 4 == 0 { 0x21 } else if i % 4 == 1 { 0x12 } else if i % 4 == 2 { 0xA4 } else { 0x42 };
        let key2: u8 = if i == 2 { 0x21 } else { 0x12 };
        let x = if xor && 2 <= i && i < 4 { b ^ key2 } else if xor && i >= 4 { b ^ key } else { b };
        out.push(x);
        i = i + 1;
        assert(out@ =~= unmasked(body@, xor).take(i as int));
    }
    assert(out@ =~= unmasked(body@, xor));
    out
}

fn read_address(body: &[u8], xor: bool) -> (r: Option<SocketAddress>)
    ensures
        r == address_of(body@, xor),
{
    if body.len() < 2 {
        return None;
    }
    let u = unmask(body, xor);
    if body[1] == 1 && body.len() == 8 {
        let port = ((u[2] as u16) << 8) | (u[3] as u16);
        let ip = ((u[4] as u32) << 24) | ((u[5] as u32) << 16) | ((u[6] as u32) << 8) | (u[7] as u32);
        Some(SocketAddress { ip: IpAddress::V4(ip), port })
    } else if body[1] == 2 && body.len() == 20 {
        let port = ((u[2] as u16) << 8) | (u[3] as u16);
        let ip = read_be(vstd::slice::slice_subrange(u.as_slice(), 4, 20));
        Some(SocketAddress { ip: IpAddress::V6(ip), port })
    } else {
        None
    }
}

/// Reads the attribute at the start of `s`; returns it and the bytes it took, padding included.
fn next_attribute(s: &[u8]) -> (r: Option<(Attribute, usize)>)
    ensures
        match attribute_at(s@) {
            None => r is None,
            Some((a, rest)) => r matches Some((b, n)) && b.view() == a && n <= s@.len()
                && s@.skip(n as int) == rest && n >= 4,
        },
{
    if s.len() < 4 {
        return None;
    }
    let t = ((s[0] as u16) << 8) | (s[1] as u16);
    let len = (((s[2] as u16) << 8) | (s[3] as u16)) as usize;
    if len > s.len() - 4 {
        return None;
    }
    let body = vstd::slice::slice_subrange(s, 4, 4 + len);
    let padded = len + (4 - len % 4) % 4;
    let taken = if padded > s.len() - 4 { s.len() - 4 } else { padded };
    proof {
        assert(body@ =~= s@.skip(4).take(len as int));
        assert(s@.skip(4 + taken) =~= s@.skip(4).skip(taken as int));
    }
    if t == MAPPED_ADDRESS {
        match read_address(body, false) {
            Some(a) => Some((Attribute::MappedAddress(a), 4 + taken)),
            None => None,
        }
    } else if t == XOR_MAPPED_ADDRESS {
        match read_address(body, true) {
            Some(a) => Some((Attribute::XorMappedIpAddr(a), 4 + taken)),
            None => None,
        }
    } else {
        Some((Attribute::Unknown(t, vstd::slice::slice_to_vec(body)), 4 + taken))
    }
}

/// A STUN message: header and attribute bytes.
pub struct Packet {
    header: Header,
    payload: Vec<u8>,
}

/// The cookie field holds the magic cookie.
pub open spec fn has_magic(s: Seq<u8>) -> bool {
    s[4] == 0x21 && s[5] == 0x12 && s[6] == 0xA4 && s[7] == 0x42
}

impl Packet {
    pub closed spec fn spec_header(self) -> Header {
        self.header
    }

    pub closed spec fn spec_payload(self) -> Seq<u8> {
        self.payload@
    }

    /// Parses a message; `None` when shorter than a header or without the magic cookie.
    pub fn parse(bytes: &[u8]) -> (r: Option<Packet>)
        ensures
            r is Some <==> bytes@.len() >= HEADER_SIZE && has_magic(bytes@),
            r matches Some(p) ==> p.spec_header().type_ == be16(bytes@[0], bytes@[1])
                && p.spec_header().len == be16(bytes@[2], bytes@[3])
                && p.spec_header().cookie == MAGIC_COOKIE
                && p.spec_header().id@ == bytes@.subrange(8, 20)
                && p.spec_payload() == bytes@.skip(HEADER_SIZE as int),
    {
        if bytes.len() < HEADER_SIZE {
            return None;
        }
        if !(bytes[4] == 0x21 && bytes[5] == 0x12 && bytes[6] == 0xA4 && bytes[7] == 0x42) {
            return None;
        }
        let mut id = [0u8; 12];
        let mut i: usize = 0;
        while i < 12
            invariant
                bytes@.len() >= HEADER_SIZE,
                i <= 12,
                forall|j: int| 0 <= j < i ==> id@[j] == bytes@[8 + j],
            decreases 12 - i,
        {
            id[i] = bytes[8 + i];
            i = i + 1;
        }
        assert(id@ =~= bytes@.subrange(8, 20));
        let cookie = ((bytes[4] as u32) << 24) | ((bytes[5] as u32) << 16) | ((bytes[6] as u32) << 8)
            | (bytes[7] as u32);
        assert(be32(0x21, 0x12, 0xA4, 0x42) == 0x2112A442u32) by (bit_vector);
        let header = Header {
            type_: ((bytes[0] as u16) << 8) | (bytes[1] as u16),
            len: ((bytes[2] as u16) << 8) | (bytes[3] as u16),
            cookie,
            id,
        };
        let payload = vstd::slice::slice_to_vec(vstd::slice::slice_subrange(bytes, HEADER_SIZE, bytes.len()));
        Some(Packet { header, payload })
    }

    /// A message over `bytes` with its header zeroed; `None` when shorter than a header.
    pub fn new(bytes: &[u8]) -> (r: Option<Packet>)
        ensures
            r is Some <==> bytes@.len() >= HEADER_SIZE,
            r matches Some(p) ==> p.spec_header().type_ == 0 && p.spec_header().len == 0
                && p.spec_header().cookie == 0 && p.spec_header().id@ == Seq::new(12, |i: int| 0u8)
                && p.spec_payload() == bytes@.skip(HEADER_SIZE as int),
    {
        if bytes.len() < HEADER_SIZE {
            return None;
        }
        let payload = vstd::slice::slice_to_vec(vstd::slice::slice_subrange(bytes, HEADER_SIZE, bytes.len()));
        let id = [0u8; 12];
        assert(id@ =~= Seq::new(12, |i: int| 0u8));
        Some(Packet { header: Header { type_: 0, len: 0, cookie: 0, id }, payload })
    }

    pub fn header(&self) -> (r: &Header)
        ensures
            *r == self.spec_header(),
    {
        &self.header
    }

    pub fn header_mut(&mut self) -> (r: &mut Header)
        ensures
            *r == old(self).spec_header(),
            final(self).spec_header() == *final(r),
            final(self).spec_payload() == old(self).spec_payload(),
    {
        &mut self.header
    }

    pub fn payload_mut(&mut self) -> (r: &mut Vec<u8>)
        ensures
            r@ == old(self).spec_payload(),
            final(self).spec_payload() == final(r)@,
            final(self).spec_header() == old(self).spec_header(),
    {
        &mut self.payload
    }

    pub fn payload(&self) -> (r: &[u8])
        ensures
            r@ == self.spec_payload(),
    {
        self.payload.as_slice()
    }

    /// The attributes in order, up to the first one that cannot be read.
    pub fn attributes(&self) -> (r: Vec<Attribute>)
        ensures
            r@.map_values(|a: Attribute| a.view()) == attributes_spec(self.spec_payload()),
    {
        let mut out: Vec<Attribute> = Vec::new();
        let mut rest: &[u8] = self.payload.as_slice();
        loop
            invariant
                out@.map_values(|a: Attribute| a.view()) + attributes_spec(rest@)
                    == attributes_spec(self.payload@),
            ensures
                out@.map_values(|a: Attribute| a.view()) == attributes_spec(self.payload@),
            decreases rest@.len(),
        {
            match next_attribute(rest) {
                Some((a, n)) => {
                    let ghost before = rest@;
                    let ghost av = a.view();
                    rest = vstd::slice::slice_subrange(rest, n, rest.len());
                    proof {
                        assert(attributes_spec(before) == seq![av] + attributes_spec(rest@));
                        assert(out@.push(a).map_values(|a: Attribute| a.view())
                            =~= out@.map_values(|a: Attribute| a.view()).push(av));
                        assert(out@.map_values(|a: Attribute| a.view()).push(av) + attributes_spec(rest@)
                            =~= out@.map_values(|a: Attribute| a.view()) + (seq![av] + attributes_spec(rest@)));
                    }
                    out.push(a);
                },
                None => {
                    assert(attributes_spec(rest@) == Seq::<AttributeSpec>::empty());
                    assert(out@.map_values(|a: Attribute| a.view()) + Seq::<AttributeSpec>::empty()
                        =~= out@.map_values(|a: Attribute| a.view()));
                    break;
                },
            }
        }
        out
    }
}

/// A binding request (type 0x0001, no attributes) with the given transaction id.
pub fn bind_request(id: [u8; 12]) -> (r: [u8; 20])
    ensures
        r@ == seq![0u8, 1u8, 0u8, 0u8, 0x21u8, 0x12u8, 0xA4u8, 0x42u8] + id@,
{
    let mut packet = [0u8; 20];
    packet[1] = 0x01;
    packet[4] = 0x21;
    packet[5] = 0x12;
    packet[6] = 0xA4;
    packet[7] = 0x42;
    let mut i: usize = 0;
    while i < 12
        invariant
            i <= 12,
            packet@.len() == 20,
            packet@[0] == 0 && packet@[1] == 1 && packet@[2] == 0 && packet@[3] == 0,
            packet@[4] == 0x21 && packet@[5] == 0x12 && packet@[6] == 0xA4 && packet@[7] == 0x42,
            forall|j: int| 0 <= j < i ==> packet@[8 + j] == id@[j],
        decreases 12 - i,
    {
        packet[8 + i] = id[i];
        i = i + 1;
    }
    assert(packet@ =~= seq![0u8, 1u8, 0u8, 0u8, 0x21u8, 0x12u8, 0xA4u8, 0x42u8] + id@);
    packet
}

/// The first address attribute among `attrs`, mapped or XOR-mapped.
pub open spec fn first_address(attrs: Seq<AttributeSpec>) -> Option<SocketAddress>
    decreases attrs.len(),
{
    if attrs.len() == 0 {
        None
    } else {
        match attrs[0] {
            AttributeSpec::MappedAddress(a) => Some(a),
            AttributeSpec::XorMappedIpAddr(a) => Some(a),
            AttributeSpec::Unknown(_, _) => first_address(attrs.drop_first()),
        }
    }
}

/// The public address that a datagram from `from` reports, if it is the
/// answer of the server at `server` to the request with transaction id `id`.
pub open spec fn response_address_spec(d: Seq<u8>, from: SocketAddress, server: SocketAddress, id: Seq<u8>) -> Option<SocketAddress> {
    if from != server || d.len() < HEADER_SIZE || !has_magic(d) || d.subrange(8, 20) != id {
        None
    } else {
        first_address(attributes_spec(d.skip(HEADER_SIZE as int)))
    }
}

/// Reads a binding response: the first mapped or XOR-mapped address it
/// carries, when it comes from `server` and answers the request `id`;
/// unknown attributes are passed over.
pub fn response_address(datagram: &[u8], from: SocketAddress, server: SocketAddress, id: [u8; 12]) -> (r: Option<SocketAddress>)
    ensures
        r == response_address_spec(datagram@, from, server, id@),
{
    if from != server {
        return None;
    }
    let packet = match Packet::parse(datagram) {
        Some(p) => p,
        None => return None,
    };
    let got = packet.header().id();
    let mut i: usize = 0;
    while i < 12
        invariant
            i <= 12,
            from == server,
            datagram@.len() >= HEADER_SIZE,
            has_magic(datagram@),
            got@ == datagram@.subrange(8, 20),
            got@.len() == 12,
            id@.len() == 12,
            forall|j: int| 0 <= j < i ==> got@[j] == id@[j],
        decreases 12 - i,
    {
        if got[i] != id[i] {
            return None;
        }
        i = i + 1;
    }
    assert(got@ =~= id@);
    let attributes = packet.attributes();
    let ghost views = attributes@.map_values(|a: Attribute| a.view());
    assert(views.skip(0) =~= views);
    let mut k: usize = 0;
    while k < attributes.len()
        invariant
            k <= attributes@.len(),
            from == server,
            datagram@.len() >= HEADER_SIZE,
            has_magic(datagram@),
            id@ == datagram@.subrange(8, 20),
            views == attributes_spec(datagram@.skip(HEADER_SIZE as int)),
            views == attributes@.map_values(|a: Attribute| a.view()),
            first_address(views) == first_address(views.skip(k as int)),
        decreases attributes@.len() - k,
    {
        assert(views.skip(k as int)[0] == attributes@[k as int].view());
        match &attributes[k] {
            Attribute::MappedAddress(a) => return Some(*a),
            Attribute::XorMappedIpAddr(a) => return Some(*a),
            Attribute::Unknown(_, _) => {},
        }
        assert(views.skip(k as int).drop_first() =~= views.skip(k + 1int));
        k = k + 1;
    }
    None
}

} // verus!

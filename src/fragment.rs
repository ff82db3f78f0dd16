//! Read-only view of an FU-A fragment (RFC 6184) as it arrives on the wire.
use vstd::prelude::*;

verus! {

/// NRI of an FU indicator byte, as a number in `0..4`.
pub open spec fn nri_of(b: u8) -> u8 {
    ((b / 32) % 4) as u8
}

/// Low five bits of a byte: the packet type of an indicator, the NAL type of a header.
pub open spec fn low_five(b: u8) -> u8 {
    (b % 32) as u8
}

/// Start bit of an FU header.
pub open spec fn start_bit(b: u8) -> bool {
    b >= 128
}

/// End bit of an FU header.
pub open spec fn end_bit(b: u8) -> bool {
    b % 128 >= 64
}

proof fn lemma_bits(b: u8)
    ensures
        (b & 0b0110_0000) >> 5u8 == nri_of(b),
        b & 0b0001_1111 == low_five(b),
        (b & 0b1000_0000 != 0) == start_bit(b),
        (b & 0b0100_0000 != 0) == end_bit(b),
{
    assert((b & 0b0110_0000) >> 5u8 == ((b / 32) % 4) as u8) by (bit_vector);
    assert(b & 0b0001_1111 == (b % 32) as u8) by (bit_vector);
    assert((b & 0b1000_0000 != 0) == (b >= 128)) by (bit_vector);
    assert((b & 0b0100_0000 != 0) == (b % 128 >= 64)) by (bit_vector);
}

/// FU indicator: `|F|NRI|  Type   |`.
#[derive(Clone, Copy)]
pub struct Indicator(u8);

impl Indicator {
    pub closed spec fn byte(self) -> u8 {
        self.0
    }

    pub fn nri(&self) -> (r: u8)
        ensures
            r == nri_of(self.byte()),
    {
        proof {
            lemma_bits(self.0);
        }
        (self.0 & 0b0110_0000) >> 5
    }

    pub fn packet_type(&self) -> (r: u8)
        ensures
            r == low_five(self.byte()),
    {
        proof {
            lemma_bits(self.0);
        }
        self.0 & 0b0001_1111
    }
}

/// FU header: `|S|E|R|  Type   |`.
#[derive(Clone, Copy)]
pub struct Header(u8);

impl Header {
    pub closed spec fn byte(self) -> u8 {
        self.0
    }

    pub fn is_first(&self) -> (r: bool)
        ensures
            r == start_bit(self.byte()),
    {
        proof {
            lemma_bits(self.0);
        }
        (self.0 & 0b1000_0000) != 0
    }

    pub fn is_last(&self) -> (r: bool)
        ensures
            r == end_bit(self.byte()),
    {
        proof {
            lemma_bits(self.0);
        }
        (self.0 & 0b0100_0000) != 0
    }

    pub fn nal_type(&self) -> (r: u8)
        ensures
            r == low_five(self.byte()),
    {
        proof {
            lemma_bits(self.0);
        }
        self.0 & 0b0001_1111
    }
}

/// An FU-A fragment borrowed from a packet's payload: indicator, header, payload.
pub struct Fragment<'a> {
    data: &'a [u8],
}

impl<'a> Fragment<'a> {
    /// The wire bytes of the fragment, indicator and header included.
    pub closed spec fn bytes(self) -> Seq<u8> {
        self.data@
    }

    pub open spec fn wf(self) -> bool {
        self.bytes().len() >= 2
    }

    /// A fragment needs its two leading bytes; anything shorter is refused.
    pub fn parse(data: &'a [u8]) -> (r: Option<Fragment<'a>>)
        ensures
            r is Some <==> data@.len() >= 2,
            r matches Some(f) ==> f.bytes() == data@ && f.wf(),
    {
        if data.len() < 2 {
            return None;
        }
        Some(Fragment { data })
    }

    pub fn payload(&self) -> (r: &'a [u8])
        requires
            self.wf(),
        ensures
            r@ == self.bytes().skip(2),
    {
        vstd::slice::slice_subrange(self.data, 2, self.data.len())
    }

    pub fn indicator(&self) -> (r: Indicator)
        requires
            self.wf(),
        ensures
            r.byte() == self.bytes()[0],
    {
        Indicator(self.data[0])
    }

    pub fn header(&self) -> (r: Header)
        requires
            self.wf(),
        ensures
            r.byte() == self.bytes()[1],
    {
        Header(self.data[1])
    }
}

} // verus!

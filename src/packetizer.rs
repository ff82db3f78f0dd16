//! Splits an Annex-B access unit into FU-A fragments (RFC 6184) bounded by an MTU.
use vstd::prelude::*;

use crate::fragment::{end_bit, low_five, start_bit};

verus! {

pub const PACKET_TYPE_FU_A: u8 = 28;

const NRI_MASK: u8 = 0b0110_0000;

const NAL_TYPE_MASK: u8 = 0b0001_1111;

/// A fragment as a triple: indicator byte, header byte, payload.
pub type FragmentSpec = (u8, u8, Seq<u8>);

/// `s[j..j + 3]` is the start-code pattern `00 00 01`.
pub open spec fn is_start_code_at(s: Seq<u8>, j: int) -> bool {
    0 <= j && j + 3 <= s.len() && s[j] == 0 && s[j + 1] == 0 && s[j + 2] == 1
}

/// Position of the first `00 00 01` in `s` at or after `from`, or `s.len()` when there is none.
pub open spec fn first_start_code(s: Seq<u8>, from: nat) -> nat
    decreases s.len() - from,
{
    if from + 3 > s.len() {
        s.len()
    } else if is_start_code_at(s, from as int) {
        from
    } else {
        first_start_code(s, from + 1)
    }
}

/// Length of the NAL unit body at the start of `s`: up to the next start code,
/// a zero byte just before it counting as part of a four-byte start code.
pub open spec fn unit_length(s: Seq<u8>) -> nat {
    let p = first_start_code(s, 0);
    if p < s.len() && p > 0 && s[p - 1] == 0 {
        (p - 1) as nat
    } else {
        p
    }
}

/// Length of the start code that `s` begins with: 3, 4, or 0 when there is none.
pub open spec fn start_code_len(s: Seq<u8>) -> nat {
    if s.len() >= 3 && s[0] == 0 && s[1] == 0 && s[2] == 1 {
        3
    } else if s.len() >= 4 && s[0] == 0 && s[1] == 0 && s[2] == 0 && s[3] == 1 {
        4
    } else {
        0
    }
}

/// NRI bits of a NAL header, left in place (`h & 0x60`).
pub open spec fn nri_bits(h: u8) -> u8 {
    (((h / 32) % 4) * 32) as u8
}

/// FU indicator that carries the given NRI bits.
pub open spec fn indicator_byte(nri: u8) -> u8 {
    (nri + PACKET_TYPE_FU_A) as u8
}

/// FU header with the given start and end bits and NAL type.
pub open spec fn header_byte(first: bool, last: bool, nal_type: u8) -> u8 {
    ((if first { 128int } else { 0int }) + (if last { 64int } else { 0int }) + nal_type) as u8
}

/// The fragments that a packetizer in the given state still produces.
pub open spec fn fragments_from(
    data: Seq<u8>,
    mtu: nat,
    nri: u8,
    nal_type: u8,
    remaining: nat,
    end_pending: bool,
) -> Seq<FragmentSpec>
    decreases 2 * data.len() + if end_pending { 1int } else { 0int },
{
    if mtu == 0 || remaining > data.len() {
        seq![]
    } else if end_pending {
        seq![(indicator_byte(nri), header_byte(false, true, nal_type), Seq::<u8>::empty())]
            + fragments_from(data, mtu, nri, nal_type, remaining, false)
    } else if remaining == 0 {
        let k = start_code_len(data);
        if k == 0 || data.len() <= k {
            seq![]
        } else {
            let h = data[k as int];
            let rest = data.skip(k + 1int);
            let len = unit_length(rest);
            if len > rest.len() {
                seq![]
            } else if len <= mtu {
                seq![(indicator_byte(nri_bits(h)), header_byte(true, false, low_five(h)), rest.take(len as int))]
                    + fragments_from(rest.skip(len as int), mtu, nri_bits(h), low_five(h), 0, true)
            } else {
                seq![(indicator_byte(nri_bits(h)), header_byte(true, false, low_five(h)), rest.take(mtu as int))]
                    + fragments_from(rest.skip(mtu as int), mtu, nri_bits(h), low_five(h), (len - mtu) as nat, false)
            }
        }
    } else if remaining <= mtu {
        seq![(indicator_byte(nri), header_byte(false, true, nal_type), data.take(remaining as int))]
            + fragments_from(data.skip(remaining as int), mtu, nri, nal_type, 0, false)
    } else {
        seq![(indicator_byte(nri), header_byte(false, false, nal_type), data.take(mtu as int))]
            + fragments_from(data.skip(mtu as int), mtu, nri, nal_type, (remaining - mtu) as nat, false)
    }
}

/// Every fragment that `data` yields at the given MTU, in order.
pub open spec fn packetize(data: Seq<u8>, mtu: nat) -> Seq<FragmentSpec> {
    fragments_from(data, mtu, 0, 0, 0, false)
}

/// Iterates over the FU-A fragments of one Annex-B access unit.
///
/// Each NAL unit is cut into pieces of at most `mtu` bytes. Because a start and
/// an end bit may not share one header, a unit that fits in one piece is sent
/// as that piece with the start bit, then an empty fragment with the end bit.
/// Input that does not begin with a start code ends the sequence.
pub struct Packetizer<'a> {
    data: &'a [u8],
    mtu: usize,
    nri: u8,
    nal_type: u8,
    remaining: usize,
    last_packet_was_full_unit: bool,
}

// FU-A fragment:
//
//  0                   1                   2                   3
//  0 1 2 3 4 5 6 7 8 9 0 1 2 3 4 5 6 7 8 9 0 1 2 3 4 5 6 7 8 9 0 1
// +-+-+-+-+-+-+-+-+-+-+-+-+-+-+-+-+-+-+-+-+-+-+-+-+-+-+-+-+-+-+-+-+
// | FU indicator  |   FU header   |                               |
// +-+-+-+-+-+-+-+-+-+-+-+-+-+-+-+-+                               |
// |                          FU payload                           |
// +-+-+-+-+-+-+-+-+-+-+-+-+-+-+-+-+-+-+-+-+-+-+-+-+-+-+-+-+-+-+-+-+
//
/// One produced fragment; `indicator` is `|F|NRI|Type|`, `header` is `|S|E|R|Type|`.
#[derive(Debug, PartialEq, Eq)]
pub struct Fragment<'a> {
    pub indicator: u8,
    pub header: u8,
    pub payload: &'a [u8],
}

impl<'a> Fragment<'a> {
    pub open spec fn view(self) -> FragmentSpec {
        (self.indicator, self.header, self.payload@)
    }
}

impl<'a> Packetizer<'a> {
    pub closed spec fn wf(self) -> bool {
        &&& self.mtu > 0
        &&& self.remaining <= self.data@.len()
        &&& self.last_packet_was_full_unit ==> self.remaining == 0
        &&& self.nri % 32 == 0
        &&& self.nri < 128
        &&& self.nal_type < 32
    }

    /// The fragments that are still to come.
    pub closed spec fn pending(self) -> Seq<FragmentSpec> {
        fragments_from(
            self.data@,
            self.mtu as nat,
            self.nri,
            self.nal_type,
            self.remaining as nat,
            self.last_packet_was_full_unit,
        )
    }

    pub fn with_mtu(mtu: usize, data: &'a [u8]) -> (r: Packetizer<'a>)
        requires
            mtu > 0,
        ensures
            r.wf(),
            r.pending() == packetize(data@, mtu as nat),
    {
        Packetizer { data, mtu, nri: 0, nal_type: 0, remaining: 0, last_packet_was_full_unit: false }
    }

    /// Moves to the next NAL unit; false when the input holds none.
    fn next_unit(&mut self) -> (found: bool)
        requires
            old(self).wf(),
            old(self).remaining == 0,
            !old(self).last_packet_was_full_unit,
            old(self).data@.len() > 0,
        ensures
            ({
                let data = old(self).data@;
                let k = start_code_len(data);
                &&& found <==> (k != 0 && data.len() > k)
                &&& !found ==> *final(self) == *old(self)
                &&& found ==> {
                    let h = data[k as int];
                    let rest = data.skip(k + 1int);
                    &&& final(self).data@ == rest
                    &&& final(self).remaining == unit_length(rest)
                    &&& unit_length(rest) <= rest.len()
                    &&& final(self).nri == nri_bits(h)
                    &&& final(self).nal_type == low_five(h)
                    &&& final(self).mtu == old(self).mtu
                    &&& !final(self).last_packet_was_full_unit
                }
            }),
    {
        let n = self.data.len();
        let header_index: usize = if n >= 3 && self.data[0] == 0 && self.data[1] == 0 && self.data[2] == 1 {
            3
        } else if n >= 4 && self.data[0] == 0 && self.data[1] == 0 && self.data[2] == 0 && self.data[3] == 1 {
            4
        } else {
            return false;
        };
        if n <= header_index {
            return false;
        }
        let h = self.data[header_index];
        self.nri = h & NRI_MASK;
        self.nal_type = h & NAL_TYPE_MASK;
        proof {
            assert(h & 0b0110_0000 == (((h / 32) % 4) * 32) as u8) by (bit_vector);
            assert(h & 0b0001_1111 == (h % 32) as u8) by (bit_vector);
        }
        self.data = vstd::slice::slice_subrange(self.data, header_index + 1, n);

        // find the start of the next unit
        let s = self.data;
        let len = s.len();
        let mut pos: usize = 0;
        while len - pos >= 3 && !(s[pos] == 0 && s[pos + 1] == 0 && s[pos + 2] == 1)
            invariant
                len == s@.len(),
                pos <= len,
                first_start_code(s@, 0) == first_start_code(s@, pos as nat),
            decreases len - pos,
        {
            pos = pos + 1;
        }
        if len - pos < 3 {
            pos = len;
        }
        proof {
            lemma_first_start_code_bound(s@, pos as nat);
        }
        if pos < len && pos != 0 && s[pos - 1] == 0 {
            self.remaining = pos - 1;
        } else {
            self.remaining = pos;
        }
        true
    }

    pub fn next(&mut self) -> (r: Option<Fragment<'a>>)
        requires
            old(self).wf(),
        ensures
            final(self).wf(),
            old(self).pending().len() == 0 ==> r is None && final(self).pending().len() == 0,
            old(self).pending().len() > 0 ==> r is Some && r->0.view() == old(self).pending()[0]
                && final(self).pending() == old(self).pending().drop_first(),
            r matches Some(f) ==> !(start_bit(f.header) && end_bit(f.header)),
    {
        if self.last_packet_was_full_unit {
            self.last_packet_was_full_unit = false;
            let indicator = self.nri | PACKET_TYPE_FU_A;
            let header = (1u8 << 6) | self.nal_type;
            let nri = self.nri;
            let t = self.nal_type;
            proof {
                assert(nri % 32 == 0 && nri < 128 ==> nri | 28 == (nri + 28) as u8) by (bit_vector);
                assert(t < 32 ==> (1u8 << 6u8) | t == (64 + t) as u8) by (bit_vector);
                assert(t < 32 ==> !(((64 + t) as u8) >= 128 && ((64 + t) as u8) % 128 >= 64));
            }
            let payload: &'a [u8] = vstd::slice::slice_subrange(self.data, 0, 0);
            assert(payload@ =~= Seq::<u8>::empty());
            return Some(Fragment { indicator, header, payload });
        }
        let mut first: u8 = 0;
        let mut last: u8 = 0;

        if self.remaining == 0 {
            if self.data.len() == 0 {
                return None;
            }
            if !self.next_unit() {
                self.data = vstd::slice::slice_subrange(self.data, 0, 0);
                assert(self.data@ =~= Seq::<u8>::empty());
                return None;
            }
            first = 1;
        }
        let size = if self.remaining < self.mtu { self.remaining } else { self.mtu };
        self.remaining = self.remaining - size;

        if self.remaining == 0 {
            if first == 1 {
                // from RFC 6184: the Start bit and the End bit MUST NOT both be set
                // to one in the same FU header, so the end goes out in a fragment of its own
                self.last_packet_was_full_unit = true;
            } else {
                last = 1;
            }
        }

        let nri = self.nri;
        let t = self.nal_type;
        let indicator = nri | PACKET_TYPE_FU_A;
        let header = (first << 7) | (last << 6) | t;
        proof {
            assert(nri % 32 == 0 && nri < 128 ==> nri | 28 == (nri + 28) as u8) by (bit_vector);
            assert(t < 32 && first <= 1 && last <= 1 ==> (first << 7u8) | (last << 6u8) | t
                == (first * 128 + last * 64 + t) as u8) by (bit_vector);
        }
        let payload = vstd::slice::slice_subrange(self.data, 0, size);
        self.data = vstd::slice::slice_subrange(self.data, size, self.data.len());
        Some(Fragment { indicator, header, payload })
    }
}

proof fn lemma_first_start_code_bound(s: Seq<u8>, from: nat)
    ensures
        first_start_code(s, from) <= s.len(),
        first_start_code(s, from) < s.len() ==> first_start_code(s, from) + 3 <= s.len()
            && is_start_code_at(s, first_start_code(s, from) as int),
    decreases s.len() - from,
{
    if from + 3 <= s.len() && !is_start_code_at(s, from as int) {
        lemma_first_start_code_bound(s, from + 1);
    }
}

/// NAL unit type of an IDR picture slice.
pub const NAL_TYPE_IDR: u8 = 5;

/// A start code at `i` opens a NAL unit whose type is IDR.
pub open spec fn idr_at(s: Seq<u8>, i: int) -> bool {
    is_start_code_at(s, i) && i + 3 < s.len() && s[i + 3] % 32 == NAL_TYPE_IDR
}

/// The Annex-B bytes hold an IDR NAL unit, so they can seed a decoder.
pub open spec fn has_idr(s: Seq<u8>) -> bool {
    exists|i: int| idr_at(s, i)
}

/// Whether an Annex-B access unit holds an IDR NAL unit.
pub fn contains_idr(data: &[u8]) -> (r: bool)
    ensures
        r == has_idr(data@),
{
    let len = data.len();
    let mut i: usize = 0;
    while i < len
        invariant
            len == data@.len(),
            i <= len,
            forall|j: int| 0 <= j < i ==> !idr_at(data@, j),
        decreases len - i,
    {
        if len - i >= 4 && data[i] == 0 && data[i + 1] == 0 && data[i + 2] == 1 && data[i + 3] % 32 == NAL_TYPE_IDR {
            assert(idr_at(data@, i as int));
            return true;
        }
        i = i + 1;
    }
    assert forall|j: int| !idr_at(data@, j) by {
        if 0 <= j < i {
        }
    }
    false
}

} // verus!

//! Reassembles FU-A fragments into Annex-B NAL units.
use vstd::prelude::*;

use crate::fragment::{end_bit, low_five, nri_of, start_bit, Fragment};
use crate::packetizer::{
    first_start_code, fragments_from, header_byte, indicator_byte, is_start_code_at, nri_bits,
    packetize, start_code_len, unit_length, FragmentSpec,
};

verus! {

/// The start code put before the first unit of a stream.
pub open spec fn long_start_code() -> Seq<u8> {
    seq![0u8, 0u8, 0u8, 1u8]
}

/// The start code put before every later unit.
pub open spec fn short_start_code() -> Seq<u8> {
    seq![0u8, 0u8, 1u8]
}

/// NAL header byte rebuilt from an FU indicator and an FU header.
pub open spec fn nal_header_of(indicator: u8, header: u8) -> u8 {
    (nri_of(indicator) * 32 + low_five(header)) as u8
}

/// The buffer after pushing the fragment whose wire bytes are `f`.
pub open spec fn push_bytes(buffer: Seq<u8>, f: Seq<u8>) -> Seq<u8> {
    if start_bit(f[1]) {
        buffer + (if buffer.len() == 0 { long_start_code() } else { short_start_code() })
            + seq![nal_header_of(f[0], f[1])] + f.skip(2)
    } else {
        buffer + f.skip(2)
    }
}

/// Wire bytes of a fragment: indicator, header, payload.
pub open spec fn wire(f: FragmentSpec) -> Seq<u8> {
    seq![f.0, f.1] + f.2
}

/// The buffer after pushing each of `frags` in turn.
pub open spec fn depacketize(buffer: Seq<u8>, frags: Seq<FragmentSpec>) -> Seq<u8>
    decreases frags.len(),
{
    if frags.len() == 0 {
        buffer
    } else {
        depacketize(push_bytes(buffer, wire(frags[0])), frags.drop_first())
    }
}

/// Accumulates one NAL unit at a time, each prefixed with a start code.
pub struct Depacketizer {
    buffer: Vec<u8>,
    complete: bool,
}

impl Depacketizer {
    pub closed spec fn buffer(self) -> Seq<u8> {
        self.buffer@
    }

    pub closed spec fn is_complete(self) -> bool {
        self.complete
    }

    pub fn new() -> (r: Self)
        ensures
            r.buffer() == Seq::<u8>::empty(),
            !r.is_complete(),
    {
        Depacketizer { buffer: Vec::with_capacity(4096), complete: false }
    }

    /// Appends a fragment; a start fragment first opens a new unit with a start
    /// code and the rebuilt NAL header. The unit is complete once an end
    /// fragment has been pushed.
    pub fn push(&mut self, fragment: Fragment)
        requires
            fragment.wf(),
        ensures
            final(self).buffer() == push_bytes(old(self).buffer(), fragment.bytes()),
            final(self).is_complete() == end_bit(fragment.bytes()[1]),
    {
        let header = fragment.header();
        if header.is_first() {
            if self.buffer.len() == 0 {
                self.buffer.push(0x00);
                self.buffer.push(0x00);
                self.buffer.push(0x00);
                self.buffer.push(0x01);
            } else {
                self.buffer.push(0x00);
                self.buffer.push(0x00);
                self.buffer.push(0x01);
            }
            // recover the NAL header
            let nri = fragment.indicator().nri() << 5;
            let nt = header.nal_type();
            proof {
                let a = fragment.bytes()[0];
                let b = fragment.bytes()[1];
                assert(((((a / 32) % 4) as u8) << 5u8) | ((b % 32) as u8)
                    == ((((a / 32) % 4) * 32 + b % 32) as u8)) by (bit_vector);
            }
            self.buffer.push(nri | nt);
        }
        let old_buffer = Ghost(self.buffer@);
        self.buffer.extend_from_slice(fragment.payload());
        assert(self.buffer@ =~= old_buffer@ + fragment.bytes().skip(2));
        proof {
            let f = fragment.bytes();
            if start_bit(f[1]) {
                let prefix = if old(self).buffer@.len() == 0 { long_start_code() } else { short_start_code() };
                assert(old_buffer@ =~= old(self).buffer@ + prefix + seq![nal_header_of(f[0], f[1])]);
            }
        }
        self.complete = header.is_last();
    }

    pub fn clear(&mut self)
        ensures
            final(self).buffer() == Seq::<u8>::empty(),
            !final(self).is_complete(),
    {
        self.buffer.clear();
        self.complete = false;
    }

    pub fn complete(&self) -> (r: bool)
        ensures
            r == self.is_complete(),
    {
        self.complete
    }

    pub fn bytes(&self) -> (r: &[u8])
        ensures
            r@ == self.buffer(),
    {
        self.buffer.as_slice()
    }
}

/// A NAL unit: its header byte and its body.
pub type NalUnit = (u8, Seq<u8>);

/// A start code: four bytes long or three.
pub open spec fn start_code(four: bool) -> Seq<u8> {
    if four {
        long_start_code()
    } else {
        short_start_code()
    }
}

/// A well-formed NAL unit: the forbidden bit is clear, the body holds no
/// start-code pattern and does not end in a zero byte.
pub open spec fn well_formed_unit(u: NalUnit) -> bool {
    &&& u.0 < 128
    &&& forall|j: int| !is_start_code_at(u.1, j)
    &&& u.1.len() > 0 ==> u.1.last() != 0
}

/// An Annex-B byte stream: each unit preceded by a start code, four bytes long where `four` says so.
pub open spec fn annex_b(units: Seq<NalUnit>, four: Seq<bool>) -> Seq<u8>
    decreases units.len(),
{
    if units.len() == 0 {
        seq![]
    } else {
        start_code(four[0]) + seq![units[0].0] + units[0].1 + annex_b(units.drop_first(), four.drop_first())
    }
}

/// The units as a depacketizer writes them: a four-byte start code before the first, three-byte ones after.
pub open spec fn normalized(units: Seq<NalUnit>, first: bool) -> Seq<u8>
    decreases units.len(),
{
    if units.len() == 0 {
        seq![]
    } else {
        (if first { long_start_code() } else { short_start_code() }) + seq![units[0].0] + units[0].1
            + normalized(units.drop_first(), false)
    }
}

/// The fragments after the first one that carry the body remainder `b`.
pub open spec fn body_fragments(ind: u8, t: u8, b: Seq<u8>, mtu: nat) -> Seq<FragmentSpec>
    decreases b.len(),
{
    if mtu == 0 || b.len() <= mtu {
        seq![(ind, header_byte(false, true, t), b)]
    } else {
        seq![(ind, header_byte(false, false, t), b.take(mtu as int))]
            + body_fragments(ind, t, b.skip(mtu as int), mtu)
    }
}

/// The fragments of one NAL unit.
pub open spec fn unit_fragments(u: NalUnit, mtu: nat) -> Seq<FragmentSpec> {
    let ind = indicator_byte(nri_bits(u.0));
    let t = low_five(u.0);
    if u.1.len() <= mtu {
        seq![(ind, header_byte(true, false, t), u.1), (ind, header_byte(false, true, t), Seq::<u8>::empty())]
    } else {
        seq![(ind, header_byte(true, false, t), u.1.take(mtu as int))]
            + body_fragments(ind, t, u.1.skip(mtu as int), mtu)
    }
}

/// The fragments of all units, unit after unit.
pub open spec fn all_fragments(units: Seq<NalUnit>, mtu: nat) -> Seq<FragmentSpec>
    decreases units.len(),
{
    if units.len() == 0 {
        seq![]
    } else {
        unit_fragments(units[0], mtu) + all_fragments(units.drop_first(), mtu)
    }
}

/// At least two fragments, of which only the last carries the end bit.
pub open spec fn ends_once(fs: Seq<FragmentSpec>) -> bool {
    &&& fs.len() >= 2
    &&& end_bit(fs.last().1)
    &&& forall|i: int| 0 <= i < fs.len() - 1 ==> !end_bit(#[trigger] fs[i].1)
}

proof fn lemma_search_from(s: Seq<u8>, from: nat, p: nat)
    requires
        from <= p <= s.len(),
        forall|j: int| from <= j < p ==> !is_start_code_at(s, j),
    ensures
        first_start_code(s, from) == first_start_code(s, p),
    decreases p - from,
{
    if from < p {
        lemma_search_from(s, from + 1, p);
    }
}

proof fn lemma_unit_length(body: Seq<u8>, tail: Seq<u8>)
    requires
        forall|j: int| !is_start_code_at(body, j),
        body.len() > 0 ==> body.last() != 0,
        tail.len() == 0 || start_code_len(tail) > 0,
    ensures
        unit_length(body + tail) == body.len(),
{
    let s = body + tail;
    let n = body.len();
    if tail.len() == 0 {
        assert(s =~= body);
        lemma_search_from(s, 0, s.len());
    } else {
        let p: nat = if start_code_len(tail) == 3 { n } else { n + 1 };
        assert forall|j: int| 0 <= j < p implies !is_start_code_at(s, j) by {
            if j + 3 <= n {
                assert(!is_start_code_at(body, j));
                assert(s[j] == body[j] && s[j + 1] == body[j + 1] && s[j + 2] == body[j + 2]);
            } else {
                assert(s[n as int] == 0 && s[n + 1int] == 0);
            }
        }
        lemma_search_from(s, 0, p);
        assert(is_start_code_at(s, p as int));
        if n > 0 {
            assert(s[n - 1] == body.last());
        }
    }
}

proof fn lemma_state_free(d: Seq<u8>, mtu: nat, nri: u8, t: u8)
    requires
        mtu > 0,
    ensures
        fragments_from(d, mtu, nri, t, 0, false) == packetize(d, mtu),
{
    reveal_with_fuel(fragments_from, 1);
}

proof fn lemma_body_chain(b: Seq<u8>, tail: Seq<u8>, mtu: nat, nri: u8, t: u8)
    requires
        mtu > 0,
        b.len() > 0,
    ensures
        fragments_from(b + tail, mtu, nri, t, b.len(), false)
            == body_fragments(indicator_byte(nri), t, b, mtu) + fragments_from(tail, mtu, nri, t, 0, false),
    decreases b.len(),
{
    let s = b + tail;
    if b.len() <= mtu {
        assert(s.take(b.len() as int) =~= b);
        assert(s.skip(b.len() as int) =~= tail);
    } else {
        assert(s.take(mtu as int) =~= b.take(mtu as int));
        assert(s.skip(mtu as int) =~= b.skip(mtu as int) + tail);
        lemma_body_chain(b.skip(mtu as int), tail, mtu, nri, t);
        assert(body_fragments(indicator_byte(nri), t, b, mtu) == seq![(indicator_byte(nri), header_byte(false, false, t), b.take(mtu as int))]
            + body_fragments(indicator_byte(nri), t, b.skip(mtu as int), mtu));
    }
}

proof fn lemma_unit_step(u: NalUnit, four: bool, tail: Seq<u8>, mtu: nat)
    requires
        well_formed_unit(u),
        mtu > 0,
        tail.len() == 0 || start_code_len(tail) > 0,
    ensures
        packetize(start_code(four) + seq![u.0] + u.1 + tail, mtu) == unit_fragments(u, mtu) + packetize(tail, mtu),
{
    let data = start_code(four) + seq![u.0] + u.1 + tail;
    let k: nat = if four { 4 } else { 3 };
    assert(start_code_len(data) == k);
    assert(data[k as int] == u.0);
    let rest = data.skip(k + 1int);
    assert(rest =~= u.1 + tail);
    lemma_unit_length(u.1, tail);
    let h = u.0;
    let t = low_five(h);
    let ind = indicator_byte(nri_bits(h));
    if u.1.len() <= mtu {
        assert(rest.take(u.1.len() as int) =~= u.1);
        assert(rest.skip(u.1.len() as int) =~= tail);
        lemma_state_free(tail, mtu, nri_bits(h), t);
        assert(fragments_from(tail, mtu, nri_bits(h), t, 0, true)
            == seq![(ind, header_byte(false, true, t), Seq::<u8>::empty())] + fragments_from(tail, mtu, nri_bits(h), t, 0, false));
        assert(packetize(data, mtu) == seq![(ind, header_byte(true, false, t), u.1)]
            + fragments_from(tail, mtu, nri_bits(h), t, 0, true));
        assert(unit_fragments(u, mtu) =~= seq![(ind, header_byte(true, false, t), u.1)]
            + seq![(ind, header_byte(false, true, t), Seq::<u8>::empty())]);
        assert(packetize(data, mtu) =~= unit_fragments(u, mtu) + packetize(tail, mtu));
    } else {
        assert(rest.take(mtu as int) =~= u.1.take(mtu as int));
        assert(rest.skip(mtu as int) =~= u.1.skip(mtu as int) + tail);
        lemma_body_chain(u.1.skip(mtu as int), tail, mtu, nri_bits(h), t);
        lemma_state_free(tail, mtu, nri_bits(h), t);
        assert(packetize(data, mtu) == seq![(ind, header_byte(true, false, t), u.1.take(mtu as int))]
            + fragments_from(u.1.skip(mtu as int) + tail, mtu, nri_bits(h), t, (u.1.len() - mtu) as nat, false));
        assert(packetize(data, mtu) =~= unit_fragments(u, mtu) + packetize(tail, mtu));
    }
}

proof fn lemma_annex_b_starts(units: Seq<NalUnit>, four: Seq<bool>)
    ensures
        annex_b(units, four).len() == 0 || start_code_len(annex_b(units, four)) > 0,
{
    if units.len() > 0 {
        let s = annex_b(units, four);
        let c = start_code(four[0]);
        assert(s[0] == c[0] && s[1] == c[1] && s[2] == c[2] && s[3] == if four[0] { c[3] } else { units[0].0 });
    }
}

proof fn lemma_packetize_units(units: Seq<NalUnit>, four: Seq<bool>, mtu: nat)
    requires
        mtu > 0,
        forall|i: int| 0 <= i < units.len() ==> well_formed_unit(#[trigger] units[i]),
    ensures
        packetize(annex_b(units, four), mtu) == all_fragments(units, mtu),
    decreases units.len(),
{
    if units.len() == 0 {
        reveal_with_fuel(fragments_from, 1);
    } else {
        let rest = units.drop_first();
        assert forall|i: int| 0 <= i < rest.len() implies well_formed_unit(#[trigger] rest[i]) by {
            assert(rest[i] == units[i + 1]);
        }
        lemma_packetize_units(rest, four.drop_first(), mtu);
        lemma_annex_b_starts(rest, four.drop_first());
        assert(well_formed_unit(units[0]));
        lemma_unit_step(units[0], four[0], annex_b(rest, four.drop_first()), mtu);
    }
}

proof fn lemma_depacketize_concat(buffer: Seq<u8>, xs: Seq<FragmentSpec>, ys: Seq<FragmentSpec>)
    ensures
        depacketize(buffer, xs + ys) == depacketize(depacketize(buffer, xs), ys),
    decreases xs.len(),
{
    if xs.len() == 0 {
        assert(xs + ys =~= ys);
    } else {
        assert((xs + ys).drop_first() =~= xs.drop_first() + ys);
        assert((xs + ys)[0] == xs[0]);
        lemma_depacketize_concat(push_bytes(buffer, wire(xs[0])), xs.drop_first(), ys);
    }
}

proof fn lemma_push_plain(buffer: Seq<u8>, f: FragmentSpec)
    requires
        !start_bit(f.1),
    ensures
        push_bytes(buffer, wire(f)) == buffer + f.2,
{
    assert(wire(f)[1] == f.1);
    assert(wire(f).skip(2) =~= f.2);
}

proof fn lemma_depacketize_body(buffer: Seq<u8>, ind: u8, t: u8, b: Seq<u8>, mtu: nat)
    requires
        t < 32,
        mtu > 0,
    ensures
        depacketize(buffer, body_fragments(ind, t, b, mtu)) == buffer + b,
    decreases b.len(),
{
    let fs = body_fragments(ind, t, b, mtu);
    if b.len() <= mtu {
        lemma_push_plain(buffer, fs[0]);
        assert(fs.drop_first() =~= Seq::<FragmentSpec>::empty());
        assert(depacketize(buffer, fs) == depacketize(buffer + b, fs.drop_first()));
    } else {
        lemma_push_plain(buffer, fs[0]);
        assert(depacketize(buffer, fs) == depacketize(buffer + b.take(mtu as int), fs.drop_first()));
        assert(fs.drop_first() =~= body_fragments(ind, t, b.skip(mtu as int), mtu));
        lemma_depacketize_body(buffer + b.take(mtu as int), ind, t, b.skip(mtu as int), mtu);
        assert(buffer + b.take(mtu as int) + b.skip(mtu as int) =~= buffer + b);
    }
}

proof fn lemma_header_rebuilt(h: u8)
    requires
        h < 128,
    ensures
        nal_header_of(indicator_byte(nri_bits(h)), header_byte(true, false, low_five(h))) == h,
{
    assert(h < 128 ==> ((((((((h / 32) % 4) * 32) as u8 + 28u8) as u8) / 32) % 4) as u8 * 32u8
        + ((((128u8 + (h % 32) as u8) as u8) % 32) as u8)) as u8 == h) by (bit_vector);
}

proof fn lemma_depacketize_unit(buffer: Seq<u8>, u: NalUnit, mtu: nat)
    requires
        u.0 < 128,
        mtu > 0,
    ensures
        depacketize(buffer, unit_fragments(u, mtu))
            == buffer + (if buffer.len() == 0 { long_start_code() } else { short_start_code() }) + seq![u.0] + u.1,
{
    let fs = unit_fragments(u, mtu);
    let h = u.0;
    let t = low_five(h);
    let ind = indicator_byte(nri_bits(h));
    let code = if buffer.len() == 0 { long_start_code() } else { short_start_code() };
    lemma_header_rebuilt(h);
    let f0 = fs[0];
    assert(wire(f0)[0] == ind && wire(f0)[1] == header_byte(true, false, t));
    assert(start_bit(header_byte(true, false, t)));
    let first = push_bytes(buffer, wire(f0));
    assert(wire(f0).skip(2) =~= f0.2);
    assert(first == buffer + code + seq![h] + f0.2);
    if u.1.len() <= mtu {
        lemma_push_plain(first, fs[1]);
        assert(fs.drop_first().drop_first() =~= Seq::<FragmentSpec>::empty());
        assert(first + Seq::<u8>::empty() =~= first);
        assert(depacketize(first, fs.drop_first()) == depacketize(push_bytes(first, wire(fs[1])), fs.drop_first().drop_first()));
    } else {
        assert(fs.drop_first() =~= body_fragments(ind, t, u.1.skip(mtu as int), mtu));
        lemma_depacketize_body(first, ind, t, u.1.skip(mtu as int), mtu);
        assert(first + u.1.skip(mtu as int) =~= buffer + code + seq![h] + u.1);
    }
}

proof fn lemma_depacketize_units(buffer: Seq<u8>, units: Seq<NalUnit>, mtu: nat)
    requires
        mtu > 0,
        forall|i: int| 0 <= i < units.len() ==> (#[trigger] units[i]).0 < 128,
    ensures
        depacketize(buffer, all_fragments(units, mtu)) == buffer + normalized(units, buffer.len() == 0),
    decreases units.len(),
{
    if units.len() == 0 {
        assert(buffer + Seq::<u8>::empty() =~= buffer);
    } else {
        let rest = units.drop_first();
        assert(units[0].0 < 128);
        lemma_depacketize_concat(buffer, unit_fragments(units[0], mtu), all_fragments(rest, mtu));
        lemma_depacketize_unit(buffer, units[0], mtu);
        let code = if buffer.len() == 0 { long_start_code() } else { short_start_code() };
        let next = buffer + code + seq![units[0].0] + units[0].1;
        assert forall|i: int| 0 <= i < rest.len() implies (#[trigger] rest[i]).0 < 128 by {
            assert(rest[i] == units[i + 1]);
        }
        lemma_depacketize_units(next, rest, mtu);
        assert(next.len() > 0);
        assert(next + normalized(rest, false) =~= buffer + normalized(units, buffer.len() == 0));
    }
}

proof fn lemma_body_ends_once(ind: u8, t: u8, b: Seq<u8>, mtu: nat)
    requires
        t < 32,
    ensures
        ({
            let fs = body_fragments(ind, t, b, mtu);
            &&& fs.len() >= 1
            &&& end_bit(fs.last().1)
            &&& forall|i: int| 0 <= i < fs.len() - 1 ==> !end_bit(#[trigger] fs[i].1)
        }),
    decreases b.len(),
{
    if !(mtu == 0 || b.len() <= mtu) {
        lemma_body_ends_once(ind, t, b.skip(mtu as int), mtu);
        let fs = body_fragments(ind, t, b, mtu);
        let tl = body_fragments(ind, t, b.skip(mtu as int), mtu);
        assert forall|i: int| 0 <= i < fs.len() - 1 implies !end_bit(#[trigger] fs[i].1) by {
            if i > 0 {
                assert(fs[i] == tl[i - 1]);
            }
        }
        assert(fs.last() == tl.last());
    }
}

proof fn lemma_unit_ends_once(u: NalUnit, mtu: nat)
    ensures
        ends_once(unit_fragments(u, mtu)),
{
    let t = low_five(u.0);
    let ind = indicator_byte(nri_bits(u.0));
    let fs = unit_fragments(u, mtu);
    if u.1.len() > mtu {
        lemma_body_ends_once(ind, t, u.1.skip(mtu as int), mtu);
        let tl = body_fragments(ind, t, u.1.skip(mtu as int), mtu);
        assert forall|i: int| 0 <= i < fs.len() - 1 implies !end_bit(#[trigger] fs[i].1) by {
            if i > 0 {
                assert(fs[i] == tl[i - 1]);
            }
        }
        assert(fs.last() == tl.last());
    }
}

/// Packetizing a well-formed Annex-B stream of NAL units and pushing every
/// fragment, in order, into an empty depacketizer gives back the same units,
/// a four-byte start code before the first and three-byte ones before the
/// rest. The fragments come unit by unit, and in each unit's run only the last
/// one carries the end bit: the depacketizer, whose completion flag follows
/// the end bit of the fragment just pushed, reports one completion per unit,
/// on that unit's last fragment.
pub proof fn lemma_packetize_round_trip(units: Seq<NalUnit>, four: Seq<bool>, mtu: nat)
    requires
        mtu > 0,
        forall|i: int| 0 <= i < units.len() ==> well_formed_unit(#[trigger] units[i]),
    ensures
        packetize(annex_b(units, four), mtu) == all_fragments(units, mtu),
        depacketize(Seq::empty(), packetize(annex_b(units, four), mtu)) == normalized(units, true),
        forall|i: int| 0 <= i < units.len() ==> ends_once(#[trigger] unit_fragments(units[i], mtu)),
{
    lemma_packetize_units(units, four, mtu);
    assert forall|i: int| 0 <= i < units.len() implies (#[trigger] units[i]).0 < 128 by {
        assert(well_formed_unit(units[i]));
    }
    lemma_depacketize_units(Seq::empty(), units, mtu);
    assert(Seq::<u8>::empty() + normalized(units, true) =~= normalized(units, true));
    assert forall|i: int| 0 <= i < units.len() implies ends_once(#[trigger] unit_fragments(units[i], mtu)) by {
        lemma_unit_ends_once(units[i], mtu);
    }
}

} // verus!

//! A codec that does not compress: a unit is the frame's bytes.
use vstd::prelude::*;

use crate::codec::{self, decode, encode, frame_bytes, frame_of, CodecError, Decoder, Encoder, Frame};

verus! {

#[verifier::external_type_specification]
#[verifier::external_body]
pub struct ExBytes(bytes::Bytes);

/// The bytes a `Bytes` buffer holds.
pub uninterp spec fn bytes_contents(b: bytes::Bytes) -> Seq<u8>;

/// Relies on `impl From<Vec<u8>> for Bytes`: the buffer holds the vector's bytes.
#[verifier::external_body]
fn bytes_from_vec(v: Vec<u8>) -> (r: bytes::Bytes)
    ensures
        bytes_contents(r) == v@,
{
    bytes::Bytes::from(v)
}

/// Relies on `Bytes`'s `Deref<Target = [u8]>`: the slice is the buffer's bytes.
#[verifier::external_body]
fn bytes_slice(b: &bytes::Bytes) -> (r: &[u8])
    ensures
        r@ == bytes_contents(*b),
{
    b.as_ref()
}

/// Codec that does not actually compress the data.
pub struct Null;

/// A unit of the null codec: every one of them is a keyframe.
pub struct Unit(bytes::Bytes);

impl Unit {
    /// The unit's payload.
    pub closed spec fn contents(self) -> Seq<u8> {
        bytes_contents(self.0)
    }

    /// A unit that holds a copy of `data`.
    pub fn copy_from(data: &[u8]) -> (r: Unit)
        ensures
            r.contents() == data@,
    {
        Unit(bytes_from_vec(vstd::slice::slice_to_vec(data)))
    }

    pub fn payload(&self) -> (r: &[u8])
        ensures
            r@ == self.contents(),
    {
        bytes_slice(&self.0)
    }
}

impl codec::Unit for Unit {
    fn from_packet(data: &[u8]) -> (r: Self)
        ensures
            r.contents() == data@,
    {
        Unit::copy_from(data)
    }

    fn data(&self) -> (r: &[u8])
        ensures
            r@ == self.contents(),
    {
        self.payload()
    }

    fn is_idr(&self) -> (r: bool)
        ensures
            r,
    {
        true
    }

    fn timestamp(&self) -> (r: u64)
        ensures
            r == 0,
    {
        0
    }
}

impl Null {
    /// Encodes one frame into exactly one unit that holds its bytes.
    pub fn encode_frame(&mut self, frame: Frame, units: &mut Vec<Unit>)
        ensures
            final(units)@.len() == old(units)@.len() + 1,
            final(units)@.take(old(units)@.len() as int) == old(units)@,
            final(units)@.last().contents() == frame_bytes(frame.view()),
            final(units)@.last().contents().len() >= 8,
    {
        let buffer = encode(&frame);
        proof {
            vstd::bytes::lemma_auto_spec_u32_to_from_le_bytes();
        }
        units.push(Unit(bytes_from_vec(buffer)));
        assert(units@.take(old(units)@.len() as int) =~= old(units)@);
    }

    /// Decodes one unit into exactly one frame; a unit shorter than eight bytes is refused.
    pub fn decode_unit(&mut self, unit: Unit, frames: &mut Vec<Frame>) -> (r: Result<(), CodecError>)
        ensures
            unit.contents().len() < 8 ==> r == Err::<(), CodecError>(CodecError::TruncatedUnit)
                && final(frames)@ == old(frames)@,
            unit.contents().len() >= 8 ==> r is Ok && final(frames)@.len() == old(frames)@.len() + 1
                && final(frames)@.take(old(frames)@.len() as int) == old(frames)@
                && final(frames)@.last().view() == frame_of(unit.contents()),
    {
        let data = bytes_slice(&unit.0);
        if data.len() < 8 {
            return Err(CodecError::TruncatedUnit);
        }
        frames.push(decode(data));
        assert(frames@.take(old(frames)@.len() as int) =~= old(frames)@);
        Ok(())
    }
}

impl Encoder for Null {
    type Unit = Unit;

    fn encode(&mut self, frame: Frame, units: &mut Vec<Unit>) -> (r: Result<(), CodecError>)
        ensures
            r is Ok,
            final(units)@.len() == old(units)@.len() + 1,
            final(units)@.last().contents() == frame_bytes(frame.view()),
            final(units)@.last().contents().len() >= 8,
    {
        self.encode_frame(frame, units);
        Ok(())
    }
}

impl Decoder for Null {
    type Unit = Unit;

    fn decode(&mut self, unit: Unit, frames: &mut Vec<Frame>) -> (r: Result<(), CodecError>)
        ensures
            unit.contents().len() < 8 ==> r == Err::<(), CodecError>(CodecError::TruncatedUnit)
                && final(frames)@ == old(frames)@,
            unit.contents().len() >= 8 ==> r is Ok && final(frames)@.len() == old(frames)@.len() + 1
                && final(frames)@.last().view() == frame_of(unit.contents()),
    {
        self.decode_unit(unit, frames)
    }
}

} // verus!

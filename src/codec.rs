//! The codec abstraction: raw frames, compressed units, encoders and decoders,
//! and the width/height framing that carries raw frames as bytes.
use vstd::prelude::*;
use vstd::bytes::{spec_u32_from_le_bytes, spec_u32_to_le_bytes, u32_from_le_bytes, u32_to_le_bytes};

verus! {

/// A raw image: width, height and tightly packed 4-byte BGRA pixels.
pub struct Frame {
    pub width: u32,
    pub height: u32,
    pub pixels: Vec<u8>,
}

/// A frame as plain values.
pub type FrameSpec = (u32, u32, Seq<u8>);

impl Frame {
    pub open spec fn view(self) -> FrameSpec {
        (self.width, self.height, self.pixels@)
    }
}

/// Settings fixed when an encoder or decoder is built.
#[derive(Clone, Copy, Debug, PartialEq, Eq, Structural)]
pub struct Config {
    pub bitrate: usize,
    pub fps: usize,
    pub gop: usize,
    pub width: usize,
    pub height: usize,
}

/// Why a codec call failed.
#[derive(Clone, Copy, Debug, PartialEq, Eq, Structural)]
pub enum CodecError {
    /// No backend could be found, not even the fallback.
    NoCodecAvailable,
    /// The unit is too short to hold what the decoder reads from it.
    TruncatedUnit,
    /// The backend refused the call with this error code.
    Backend(i32),
}

/// A compressed access unit; codec backends outside this crate implement it too.
pub trait Unit: Sized {
    /// A unit with the given payload, as it arrives from the network.
    fn from_packet(data: &[u8]) -> Self;

    /// The unit's payload.
    fn data(&self) -> &[u8];

    /// The unit can seed a decoder.
    fn is_idr(&self) -> bool;

    /// Media clock ticks.
    fn timestamp(&self) -> u64;
}

/// Turns frames into units.
pub trait Encoder {
    type Unit: Unit;

    /// Appends the units that `frame` yields, in the order produced; what was
    /// in `units` before stays in front, also when the call fails.
    fn encode(&mut self, frame: Frame, units: &mut Vec<Self::Unit>) -> (r: Result<(), CodecError>)
        ensures
            final(units)@.len() >= old(units)@.len(),
            final(units)@.take(old(units)@.len() as int) == old(units)@,
    ;
}

/// Turns units into frames.
pub trait Decoder {
    type Unit: Unit;

    /// Appends the frames that `unit` yields; what was in `frames` before stays in front.
    fn decode(&mut self, unit: Self::Unit, frames: &mut Vec<Frame>) -> (r: Result<(), CodecError>)
        ensures
            final(frames)@.len() >= old(frames)@.len(),
            final(frames)@.take(old(frames)@.len() as int) == old(frames)@,
    ;
}

/// A raw frame as bytes: width and height as little-endian 32-bit values, then the pixels.
pub open spec fn frame_bytes(f: FrameSpec) -> Seq<u8> {
    spec_u32_to_le_bytes(f.0) + spec_u32_to_le_bytes(f.1) + f.2
}

/// The frame that `b` (at least eight bytes) carries.
pub open spec fn frame_of(b: Seq<u8>) -> FrameSpec {
    (spec_u32_from_le_bytes(b.subrange(0, 4)), spec_u32_from_le_bytes(b.subrange(4, 8)), b.skip(8))
}

/// Writes a frame as bytes.
pub fn encode(frame: &Frame) -> (r: Vec<u8>)
    ensures
        r@ == frame_bytes(frame.view()),
{
    let mut buffer = u32_to_le_bytes(frame.width);
    let height = u32_to_le_bytes(frame.height);
    buffer.extend_from_slice(height.as_slice());
    buffer.extend_from_slice(frame.pixels.as_slice());
    assert(buffer@ =~= frame_bytes(frame.view()));
    buffer
}

/// Reads a frame from bytes.
pub fn decode(buffer: &[u8]) -> (r: Frame)
    requires
        buffer@.len() >= 8,
    ensures
        r.view() == frame_of(buffer@),
{
    let width = u32_from_le_bytes(vstd::slice::slice_subrange(buffer, 0, 4));
    let height = u32_from_le_bytes(vstd::slice::slice_subrange(buffer, 4, 8));
    let pixels = vstd::slice::slice_to_vec(vstd::slice::slice_subrange(buffer, 8, buffer.len()));
    Frame { width, height, pixels }
}

/// Writing a frame as bytes and reading it back gives the same width, height and pixels.
pub proof fn lemma_frame_round_trip(f: FrameSpec)
    ensures
        frame_bytes(f).len() >= 8,
        frame_of(frame_bytes(f)) == f,
{
    vstd::bytes::lemma_auto_spec_u32_to_from_le_bytes();
    let b = frame_bytes(f);
    assert(b.subrange(0, 4) =~= spec_u32_to_le_bytes(f.0));
    assert(b.subrange(4, 8) =~= spec_u32_to_le_bytes(f.1));
    assert(b.skip(8) =~= f.2);
}

} // verus!

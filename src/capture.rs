//! Screen capture settings and the pixel fix-up applied to captured frames.
use vstd::prelude::*;

verus! {

/// Which display to capture.
#[derive(Clone, Copy, Debug, PartialEq, Eq, Hash, Structural)]
pub enum DisplayId {
    Primary,
    Index(usize),
}

/// A capture source: a display and a target rate.
#[derive(Clone, Copy, Debug, PartialEq, Eq, Hash, Structural)]
pub struct CaptureDisplay {
    pub id: DisplayId,
    pub fps: u32,
}

impl CaptureDisplay {
    /// Time between two captures, in nanoseconds.
    pub fn period_nanos(&self) -> (r: u64)
        requires
            self.fps > 0,
        ensures
            r == 1_000_000_000u64 / (self.fps as u64),
    {
        1_000_000_000 / (self.fps as u64)
    }
}

/// Makes every pixel of a BGRA buffer opaque: each fourth byte becomes `0xff`.
pub fn set_opaque(pixels: &mut Vec<u8>)
    ensures
        final(pixels)@.len() == old(pixels)@.len(),
        forall|i: int| 0 <= i < old(pixels)@.len() ==> #[trigger] final(pixels)@[i] == if i % 4 == 3 {
            255u8
        } else {
            old(pixels)@[i]
        },
{
    let len = pixels.len();
    let mut i: usize = 0;
    while i < len
        invariant
            len == old(pixels)@.len(),
            pixels@.len() == len,
            i <= len,
            forall|j: int| 0 <= j < len ==> #[trigger] pixels@[j] == if j % 4 == 3 && j < i {
                255u8
            } else {
                old(pixels)@[j]
            },
        decreases len - i,
    {
        if i % 4 == 3 {
            pixels.set(i, 0xff);
        }
        i = i + 1;
    }
}

} // verus!

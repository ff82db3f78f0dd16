//! Decisions of the native codec backend that do not touch the native library:
//! error codes, presentation timestamps, choice of codec, aspect ratio.
use vstd::prelude::*;

verus! {

/// POSIX `EAGAIN`, which the codec library returns when it needs more input.
pub const EAGAIN: i32 = 11;

/// Ticks per second of the H.264 media clock (RFC 6184, section 8.2.1).
pub const CLOCK_RATE: u64 = 90000;

/// What a codec library return code means.
#[derive(Clone, Copy, Debug, PartialEq, Eq, Structural)]
pub enum ErrorKind {
    Success,
    WouldBlock,
    Other,
}

/// A codec library return code, with negative codes turned into positive error numbers.
#[derive(Clone, Copy, Debug, PartialEq, Eq, Structural)]
pub struct Error {
    code: i32,
}

/// The error number that a return code stands for.
pub open spec fn error_number(code: i32) -> i32 {
    if code < 0 && code != i32::MIN {
        (-code) as i32
    } else {
        code
    }
}

impl Error {
    pub closed spec fn spec_code(self) -> i32 {
        self.code
    }

    pub fn from_code(code: i32) -> (r: Error)
        ensures
            r.spec_code() == error_number(code),
    {
        if code < 0 && code != i32::MIN {
            Error { code: -code }
        } else {
            Error { code }
        }
    }

    pub fn code(&self) -> (r: i32)
        ensures
            r == self.spec_code(),
    {
        self.code
    }

    pub fn kind(&self) -> (r: ErrorKind)
        ensures
            r == (if self.spec_code() == 0 {
                ErrorKind::Success
            } else if self.spec_code() == EAGAIN {
                ErrorKind::WouldBlock
            } else {
                ErrorKind::Other
            }),
    {
        if self.code == 0 {
            ErrorKind::Success
        } else if self.code == EAGAIN {
            ErrorKind::WouldBlock
        } else {
            ErrorKind::Other
        }
    }
}

/// Presentation timestamps for an encoder: frame `n` gets `n * (90000 / fps)`.
pub struct PtsClock {
    ticks_per_frame: u64,
    frame_index: u64,
}

impl PtsClock {
    pub closed spec fn ticks_per_frame(self) -> u64 {
        self.ticks_per_frame
    }

    pub closed spec fn frame_index(self) -> u64 {
        self.frame_index
    }

    pub fn new(fps: usize) -> (r: PtsClock)
        requires
            fps > 0,
        ensures
            r.ticks_per_frame() == CLOCK_RATE / (fps as u64),
            r.frame_index() == 0,
    {
        PtsClock { ticks_per_frame: CLOCK_RATE / (fps as u64), frame_index: 0 }
    }

    /// The timestamp of the next frame, one per call whatever the call
    /// produced; `None` once it no longer fits in 64 bits.
    pub fn next_pts(&mut self) -> (r: Option<u64>)
        ensures
            final(self).ticks_per_frame() == old(self).ticks_per_frame(),
            old(self).ticks_per_frame() * old(self).frame_index() <= u64::MAX && old(self).frame_index() < u64::MAX
                ==> r == Some((old(self).ticks_per_frame() * old(self).frame_index()) as u64)
                && final(self).frame_index() == old(self).frame_index() + 1,
            !(old(self).ticks_per_frame() * old(self).frame_index() <= u64::MAX && old(self).frame_index() < u64::MAX)
                ==> r is None && final(self).frame_index() == old(self).frame_index(),
    {
        if self.frame_index == u64::MAX {
            return None;
        }
        let pts = match self.ticks_per_frame.checked_mul(self.frame_index) {
            Some(p) => p,
            None => return None,
        };
        self.frame_index = self.frame_index + 1;
        Some(pts)
    }
}

/// The first candidate that is there.
pub open spec fn first_present<T>(s: Seq<Option<T>>) -> Option<T>
    decreases s.len(),
{
    if s.len() == 0 {
        None
    } else if s[0] is Some {
        s[0]
    } else {
        first_present(s.drop_first())
    }
}

/// Chooses a codec: the first of `preferred` that was found, else the fallback;
/// an error only when neither is there.
pub fn pick_codec<T>(preferred: Vec<Option<T>>, fallback: Option<T>) -> (r: Result<T, crate::codec::CodecError>)
    ensures
        match first_present(preferred@) {
            Some(c) => r == Ok::<T, crate::codec::CodecError>(c),
            None => match fallback {
                Some(c) => r == Ok::<T, crate::codec::CodecError>(c),
                None => r == Err::<T, crate::codec::CodecError>(crate::codec::CodecError::NoCodecAvailable),
            },
        },
{
    let mut candidates = preferred;
    let ghost all = candidates@;
    assert(all.skip(0) =~= all);
    let mut i: usize = 0;
    while i < candidates.len()
        invariant
            candidates@ == all,
            all == preferred@,
            i <= all.len(),
            first_present(all) == first_present(all.skip(i as int)),
        decreases all.len() - i,
    {
        if candidates[i].is_some() {
            let c = candidates.remove(i);
            assert(all.skip(i as int)[0] == all[i as int]);
            assert(all.skip(i as int).len() > 0);
            assert(first_present(all.skip(i as int)) == all[i as int]);
            assert(c == all[i as int]);
            return match c {
                Some(c) => Ok(c),
                None => Err(crate::codec::CodecError::NoCodecAvailable),
            };
        }
        assert(all.skip(i as int).drop_first() =~= all.skip(i + 1int));
        i = i + 1;
    }
    match fallback {
        Some(c) => Ok(c),
        None => Err(crate::codec::CodecError::NoCodecAvailable),
    }
}

/// Greatest common divisor, with `gcd(a, 0) == a`.
pub open spec fn gcd(a: nat, b: nat) -> nat
    decreases b,
{
    if b == 0 {
        a
    } else {
        gcd(b, a % b)
    }
}

/// Relies on `num_integer::gcd` for `usize`: the greatest common divisor,
/// and the other argument when one of them is zero.
#[verifier::external_body]
fn integer_gcd(a: usize, b: usize) -> (r: usize)
    ensures
        r as nat == gcd(a as nat, b as nat),
{
    num_integer::gcd(a, b)
}

proof fn lemma_gcd_positive(a: nat, b: nat)
    requires
        a > 0,
    ensures
        gcd(a, b) > 0,
    decreases b,
{
    if b > 0 {
        lemma_gcd_positive_rev(b, a % b);
    }
}

proof fn lemma_gcd_positive_rev(a: nat, b: nat)
    requires
        a > 0,
    ensures
        gcd(a, b) > 0,
    decreases b,
{
    if b > 0 {
        lemma_gcd_positive(b, a % b);
    }
}

/// The sample aspect ratio of a `width × height` picture: both divided by their gcd.
pub fn aspect_ratio(width: usize, height: usize) -> (r: (usize, usize))
    requires
        width > 0,
    ensures
        gcd(width as nat, height as nat) > 0,
        r.0 == width / (gcd(width as nat, height as nat) as usize),
        r.1 == height / (gcd(width as nat, height as nat) as usize),
{
    let divisor = integer_gcd(width, height);
    proof {
        lemma_gcd_positive(width as nat, height as nat);
    }
    (width / divisor, height / divisor)
}

} // verus!

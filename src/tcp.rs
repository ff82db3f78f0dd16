//! Length-prefixed framing over TCP: a 4-byte little-endian length, then that
//! many payload bytes. Also the sender's bookkeeping of connected clients.
use std::collections::HashMap;

use vstd::prelude::*;
use vstd::bytes::{spec_u32_from_le_bytes, spec_u32_to_le_bytes, u32_from_le_bytes, u32_to_le_bytes};

verus! {

broadcast use vstd::std_specs::hash::group_hash_axioms;

/// Largest payload a receiver accepts: 8 MiB.
pub const MAX_FRAME_SIZE: usize = 8388608;

/// Bytes of the length prefix.
pub const PREFIX_SIZE: usize = 4;

/// The frame that carries `payload`.
pub open spec fn frame_spec(payload: Seq<u8>) -> Seq<u8> {
    spec_u32_to_le_bytes(payload.len() as u32) + payload
}

/// The frames of `units`, back to back.
pub open spec fn frames_spec(units: Seq<Seq<u8>>) -> Seq<u8>
    decreases units.len(),
{
    if units.len() == 0 {
        seq![]
    } else {
        frame_spec(units[0]) + frames_spec(units.drop_first())
    }
}

/// Length that the prefix at the start of `s` claims.
pub open spec fn claimed_length(s: Seq<u8>) -> nat {
    spec_u32_from_le_bytes(s.take(4)) as nat
}

/// A complete frame stands at the start of `s`.
pub open spec fn has_frame(s: Seq<u8>) -> bool {
    s.len() >= 4 && claimed_length(s) <= MAX_FRAME_SIZE && s.len() >= 4int + claimed_length(s)
}

/// The start of `s` claims more than the largest accepted payload.
pub open spec fn oversized(s: Seq<u8>) -> bool {
    s.len() >= 4 && claimed_length(s) > MAX_FRAME_SIZE
}

/// The payloads of the complete frames at the start of `s`, taken one after the other.
pub open spec fn split_frames(s: Seq<u8>) -> Seq<Seq<u8>>
    decreases s.len(),
{
    if has_frame(s) {
        seq![s.subrange(4, 4int + claimed_length(s))] + split_frames(s.skip(4int + claimed_length(s)))
    } else {
        seq![]
    }
}

/// What is left of `s` once `split_frames(s)` is taken.
pub open spec fn frames_rest(s: Seq<u8>) -> Seq<u8>
    decreases s.len(),
{
    if has_frame(s) {
        frames_rest(s.skip(4int + claimed_length(s)))
    } else {
        s
    }
}

/// Frames `data`: its length as four little-endian bytes, then the bytes.
pub fn frame(data: &[u8]) -> (r: Vec<u8>)
    requires
        data@.len() <= u32::MAX,
    ensures
        r@ == frame_spec(data@),
{
    let mut out = u32_to_le_bytes(data.len() as u32);
    out.extend_from_slice(data);
    assert(out@ =~= frame_spec(data@));
    out
}

/// Why a stream of frames is refused.
#[derive(Clone, Copy, Debug, PartialEq, Eq, Structural)]
pub enum FrameError {
    /// A prefix claims more than 8 MiB.
    TooLarge(u32),
}

/// Takes frames out of the bytes read from a connection.
pub struct Receiver {
    buffer: Vec<u8>,
}

impl Receiver {
    /// Bytes read and not yet taken as a frame.
    pub closed spec fn pending(self) -> Seq<u8> {
        self.buffer@
    }

    pub fn new() -> (r: Receiver)
        ensures
            r.pending() == Seq::<u8>::empty(),
    {
        Receiver { buffer: Vec::new() }
    }

    /// Adds bytes read from the connection.
    pub fn feed(&mut self, bytes: &[u8])
        ensures
            final(self).pending() == old(self).pending() + bytes@,
    {
        self.buffer.extend_from_slice(bytes);
        assert(self.buffer@ =~= old(self).buffer@ + bytes@);
    }

    /// The next payload, once all its bytes are in; `None` while they are not;
    /// an error when the prefix claims more than 8 MiB, in which case the
    /// connection is to be dropped.
    pub fn next_frame(&mut self) -> (r: Result<Option<Vec<u8>>, FrameError>)
        ensures
            oversized(old(self).pending()) <==> r is Err,
            r matches Err(FrameError::TooLarge(n)) ==> n == claimed_length(old(self).pending()),
            has_frame(old(self).pending()) <==> r matches Ok(Some(_)),
            r matches Ok(Some(p)) ==> p@ == split_frames(old(self).pending())[0]
                && final(self).pending() == old(self).pending().skip(4int + claimed_length(old(self).pending())),
            !(r matches Ok(Some(_))) ==> final(self).pending() == old(self).pending(),
    {
        let len = self.buffer.len();
        if len < PREFIX_SIZE {
            return Ok(None);
        }
        let prefix = vstd::slice::slice_subrange(self.buffer.as_slice(), 0, PREFIX_SIZE);
        let size = u32_from_le_bytes(prefix);
        assert(prefix@ == self.buffer@.take(4));
        if size as usize > MAX_FRAME_SIZE {
            return Err(FrameError::TooLarge(size));
        }
        let size = size as usize;
        if len - PREFIX_SIZE < size {
            return Ok(None);
        }
        let payload = vstd::slice::slice_to_vec(vstd::slice::slice_subrange(self.buffer.as_slice(), PREFIX_SIZE, PREFIX_SIZE + size));
        let rest = vstd::slice::slice_to_vec(vstd::slice::slice_subrange(self.buffer.as_slice(), PREFIX_SIZE + size, len));
        self.buffer = rest;
        Ok(Some(payload))
    }
}

proof fn lemma_frame_prefix(payload: Seq<u8>, tail: Seq<u8>)
    requires
        payload.len() <= MAX_FRAME_SIZE,
    ensures
        has_frame(frame_spec(payload) + tail),
        claimed_length(frame_spec(payload) + tail) == payload.len(),
        (frame_spec(payload) + tail).subrange(4, 4int + payload.len()) == payload,
        (frame_spec(payload) + tail).skip(4int + payload.len()) == tail,
{
    vstd::bytes::lemma_auto_spec_u32_to_from_le_bytes();
    let s = frame_spec(payload) + tail;
    let b = spec_u32_to_le_bytes(payload.len() as u32);
    assert(s.take(4) =~= b);
    assert(s.subrange(4, 4int + payload.len()) =~= payload);
    assert(s.skip(4int + payload.len()) =~= tail);
}

/// Framing units of at most 8 MiB each and splitting the bytes back into
/// frames gives the same units in the same order, with nothing left over.
pub proof fn lemma_framing_round_trip(units: Seq<Seq<u8>>)
    requires
        forall|i: int| 0 <= i < units.len() ==> (#[trigger] units[i]).len() <= MAX_FRAME_SIZE,
    ensures
        split_frames(frames_spec(units)) == units,
        frames_rest(frames_spec(units)) == Seq::<u8>::empty(),
    decreases units.len(),
{
    if units.len() == 0 {
        assert(!has_frame(Seq::<u8>::empty()));
    } else {
        let rest = units.drop_first();
        assert forall|i: int| 0 <= i < rest.len() implies (#[trigger] rest[i]).len() <= MAX_FRAME_SIZE by {
            assert(rest[i] == units[i + 1]);
        }
        lemma_framing_round_trip(rest);
        assert(units[0].len() <= MAX_FRAME_SIZE);
        lemma_frame_prefix(units[0], frames_spec(rest));
        assert(split_frames(frames_spec(units)) =~= seq![units[0]] + rest);
    }
}

/// The clients that the TCP sender streams to: connection id to whether a
/// keyframe has gone to the client yet.
///
/// Each new connection gets the next id. No unit goes to a client until it
/// has been sent a keyframe; from then on it gets every unit.
pub struct Clients {
    last_id: usize,
    clients: HashMap<usize, bool>,
}

impl Clients {
    pub closed spec fn last_id(self) -> usize {
        self.last_id
    }

    pub closed spec fn entries(self) -> Map<usize, bool> {
        self.clients@
    }

    /// Every id in use was handed out already.
    pub closed spec fn wf(self) -> bool {
        forall|id: usize| #[trigger] self.clients@.contains_key(id) ==> id <= self.last_id
    }

    pub fn new() -> (r: Clients)
        ensures
            r.wf(),
            r.last_id() == 0,
            r.entries() == Map::<usize, bool>::empty(),
    {
        Clients { last_id: 0, clients: HashMap::new() }
    }

    /// Registers a new connection and returns its id; `None` once ids are used up.
    pub fn accept(&mut self) -> (r: Option<usize>)
        requires
            old(self).wf(),
        ensures
            final(self).wf(),
            old(self).last_id() == usize::MAX <==> r is None,
            r is None ==> final(self).entries() == old(self).entries() && final(self).last_id() == old(self).last_id(),
            r matches Some(id) ==> id == old(self).last_id() + 1 && final(self).last_id() == id
                && !old(self).entries().contains_key(id)
                && final(self).entries() == old(self).entries().insert(id, false),
    {
        if self.last_id == usize::MAX {
            return None;
        }
        self.last_id = self.last_id + 1;
        self.clients.insert(self.last_id, false);
        assert(self.clients@ == old(self).clients@.insert(self.last_id, false));
        assert forall|id: usize| #[trigger] self.clients@.contains_key(id) implies id <= self.last_id by {
            if id != self.last_id {
                assert(old(self).clients@.contains_key(id));
            }
        }
        Some(self.last_id)
    }

    pub fn len(&self) -> (r: usize)
        ensures
            r == self.entries().len(),
    {
        self.clients.len()
    }

    /// The ids that a unit goes to, each once: every client for a keyframe,
    /// otherwise those that have had one. Each of them is marked as having had a keyframe.
    pub fn recipients(&mut self, is_idr: bool) -> (r: Vec<usize>)
        requires
            old(self).wf(),
        ensures
            final(self).wf(),
            r@.no_duplicates(),
            forall|id: usize| #[trigger] r@.contains(id) <==> old(self).entries().contains_key(id)
                && (old(self).entries()[id] || is_idr),
            final(self).last_id() == old(self).last_id(),
            final(self).entries().dom() == old(self).entries().dom(),
            forall|id: usize| #[trigger] old(self).entries().contains_key(id) ==> final(self).entries()[id]
                == (old(self).entries()[id] || is_idr),
    {
        let ghost m = self.clients@;
        assert(forall|id: usize| #[trigger] m.contains_key(id) ==> id <= self.last_id);
        let mut ids: Vec<usize> = Vec::new();
        for pair in it: self.clients.iter()
            invariant
                it.seq() == vstd::std_specs::iter::IteratorSpec::remaining(
                    &vstd::std_specs::hash::spec_hash_map_iter(&self.clients)),
                it.seq().no_duplicates(),
                m == self.clients@,
                ids@.no_duplicates(),
                forall|id: usize| ids@.contains(id) <==> exists|j: int| 0 <= j < it.index() && *it.seq()[j].0 == id
                    && (*it.seq()[j].1 || is_idr),
        {
            let ghost k = it.index();
            let ghost before = ids@;
            assert(pair == it.seq()[k]);
            let (id, had) = pair;
            if *had || is_idr {
                proof {
                    if before.contains(*id) {
                        let j = choose|j: int| 0 <= j < k && *it.seq()[j].0 == *id && (*it.seq()[j].1 || is_idr);
                        assert(m.contains_key(*it.seq()[j].0) && m[*it.seq()[j].0] == *it.seq()[j].1);
                        assert(m.contains_key(*it.seq()[k].0) && m[*it.seq()[k].0] == *it.seq()[k].1);
                        assert(it.seq()[j] == it.seq()[k]);
                    }
                }
                ids.push(*id);
            }
            proof {
                assert forall|x: usize| ids@.contains(x) implies exists|j: int| 0 <= j < k + 1 && *it.seq()[j].0 == x
                    && (*it.seq()[j].1 || is_idr) by {
                    if !before.contains(x) {
                        assert(x == *id);
                    }
                }
                assert forall|x: usize| (exists|j: int| 0 <= j < k + 1 && *it.seq()[j].0 == x
                    && (*it.seq()[j].1 || is_idr)) implies ids@.contains(x) by {
                    let j = choose|j: int| 0 <= j < k + 1 && *it.seq()[j].0 == x && (*it.seq()[j].1 || is_idr);
                    if j < k {
                        assert(before.contains(x));
                        let w = choose|w: int| 0 <= w < before.len() && before[w] == x;
                        assert(ids@[w] == x);
                    } else {
                        assert(ids@[ids@.len() - 1] == x);
                    }
                }
            }
        }
        assert(forall|id: usize| #[trigger] ids@.contains(id) <==> m.contains_key(id) && (m[id] || is_idr));
        let mut i: usize = 0;
        while i < ids.len()
            invariant
                i <= ids@.len(),
                self.last_id == old(self).last_id,
                forall|id: usize| #[trigger] ids@.contains(id) <==> m.contains_key(id) && (m[id] || is_idr),
                self.clients@.dom() == m.dom(),
                forall|id: usize| #[trigger] m.contains_key(id) ==> id <= self.last_id,
                forall|id: usize| #[trigger] m.contains_key(id) ==> self.clients@[id]
                    == (m[id] || ids@.take(i as int).contains(id)),
            decreases ids@.len() - i,
        {
            let id = ids[i];
            assert(ids@.contains(id));
            let ghost before = self.clients@;
            self.clients.insert(id, true);
            proof {
                assert(self.clients@ == before.insert(id, true));
                assert(ids@.take(i + 1int) =~= ids@.take(i as int).push(id));
                assert(self.clients@.dom() =~= m.dom());
                assert forall|k: usize| #[trigger] m.contains_key(k) implies self.clients@[k]
                    == (m[k] || ids@.take(i + 1int).contains(k)) by {
                    if k != id {
                        assert(ids@.take(i + 1int).contains(k) == ids@.take(i as int).contains(k));
                    } else {
                        assert(ids@.take(i + 1int)[i as int] == id);
                    }
                }
            }
            i = i + 1;
        }
        proof {
            assert(ids@.take(ids@.len() as int) =~= ids@);
            assert forall|id: usize| #[trigger] m.contains_key(id) implies self.clients@[id] == (m[id] || is_idr) by {
                if ids@.contains(id) {
                } else if is_idr {
                    assert(ids@.contains(id));
                }
            }
        }
        ids
    }

    /// Forgets the clients whose ids are in `ids`.
    pub fn remove(&mut self, ids: &[usize])
        requires
            old(self).wf(),
        ensures
            final(self).wf(),
            final(self).last_id() == old(self).last_id(),
            final(self).entries() == old(self).entries().remove_keys(ids@.to_set()),
    {
        let ghost m = self.clients@;
        let mut i: usize = 0;
        while i < ids.len()
            invariant
                i <= ids@.len(),
                self.last_id == old(self).last_id,
                self.clients@ == m.remove_keys(ids@.take(i as int).to_set()),
                forall|id: usize| #[trigger] m.contains_key(id) ==> id <= self.last_id,
            decreases ids@.len() - i,
        {
            let id = ids[i];
            let ghost before = self.clients@;
            self.clients.remove(&id);
            assert(self.clients@ == before.remove(id));
            proof {
                assert(ids@.take(i + 1int) =~= ids@.take(i as int).push(id));
                ids@.take(i as int).lemma_push_to_set_commute(id);
                assert(ids@.take(i + 1int).to_set() == ids@.take(i as int).to_set().insert(id));
                assert(self.clients@ =~= m.remove_keys(ids@.take(i + 1int).to_set()));
            }
            i = i + 1;
        }
        assert(ids@.take(ids@.len() as int) =~= ids@);
        assert forall|id: usize| #[trigger] self.clients@.contains_key(id) implies id <= self.last_id by {
            assert(m.contains_key(id));
        }
    }
}

} // verus!

//! Burst frame assembly: collecting the frames of a burst stream until every chunk
//! is present, then joining them in frame order.
use vstd::prelude::*;

use crate::decode::DecodeError;
use crate::encode::{joined_payloads, EncodedSymbol};
use crate::frame::Frame;
use crate::wire::{copy_range, push_all};

verus! {

/// Scanner errors.
#[derive(Debug)]
pub enum ScannerError {
    /// Wrapped decode error.
    Decode(DecodeError),
    /// Conflicting burst metadata was observed.
    InconsistentBurst(u64),
}

/// The chunk stored under frame `index` among the first `n` entries: the last entry
/// with that index.
pub open spec fn lookup_in(entries: Seq<(u16, Seq<u8>)>, index: u16, n: int) -> Option<Seq<u8>>
    decreases n,
{
    if n <= 0 {
        None
    } else if entries[n - 1].0 == index {
        Some(entries[n - 1].1)
    } else {
        lookup_in(entries, index, n - 1)
    }
}

/// The chunk stored under frame `index`.
pub open spec fn lookup(entries: Seq<(u16, Seq<u8>)>, index: u16) -> Option<Seq<u8>> {
    lookup_in(entries, index, entries.len() as int)
}

/// No frame index is stored twice.
pub open spec fn unique_indexes(entries: Seq<(u16, Seq<u8>)>) -> bool {
    forall|i: int, j: int|
        0 <= i < j < entries.len() ==> (#[trigger] entries[i]).0 != (#[trigger] entries[j]).0
}

/// The chunks of frames `0..n`, in frame order; a missing frame contributes nothing.
pub open spec fn assembled(entries: Seq<(u16, Seq<u8>)>, n: nat) -> Seq<u8>
    decreases n,
{
    if n == 0 {
        Seq::empty()
    } else {
        assembled(entries, (n - 1) as nat) + match lookup(entries, (n - 1) as u16) {
            Some(chunk) => chunk,
            None => Seq::empty(),
        }
    }
}

/// The entries after offering `chunk` for frame `index`: the first chunk seen for an
/// index is kept.
pub open spec fn offer(entries: Seq<(u16, Seq<u8>)>, index: u16, chunk: Seq<u8>) -> Seq<
    (u16, Seq<u8>),
> {
    if lookup(entries, index) is Some {
        entries
    } else {
        entries.push((index, chunk))
    }
}

proof fn lemma_lookup_none(entries: Seq<(u16, Seq<u8>)>, index: u16, n: int)
    requires
        0 <= n <= entries.len(),
    ensures
        lookup_in(entries, index, n) is None <==> forall|j: int|
            0 <= j < n ==> (#[trigger] entries[j]).0 != index,
    decreases n,
{
    if n > 0 {
        lemma_lookup_none(entries, index, n - 1);
    }
}

proof fn lemma_lookup_prefix(entries: Seq<(u16, Seq<u8>)>, e: (u16, Seq<u8>), index: u16, n: int)
    requires
        0 <= n <= entries.len(),
    ensures
        lookup_in(entries.push(e), index, n) == lookup_in(entries, index, n),
    decreases n,
{
    if n > 0 {
        lemma_lookup_prefix(entries, e, index, n - 1);
    }
}

/// Looking up after a push: the pushed chunk under its own index, the earlier entries
/// otherwise.
proof fn lemma_lookup_push(entries: Seq<(u16, Seq<u8>)>, index: u16, chunk: Seq<u8>, k: u16)
    ensures
        lookup(entries.push((index, chunk)), k) == if k == index {
            Some(chunk)
        } else {
            lookup(entries, k)
        },
{
    lemma_lookup_prefix(entries, (index, chunk), k, entries.len() as int);
}

/// Burst frame assembly state.
#[derive(Debug, Clone, PartialEq, Eq)]
pub struct BurstAssembler {
    frame_count: u16,
    frames: Vec<(u16, Vec<u8>)>,
}

impl BurstAssembler {
    /// The frame count this burst was opened with.
    pub closed spec fn spec_frame_count(&self) -> u16 {
        self.frame_count
    }

    /// The stored chunks, each under its frame index, in the order they arrived.
    pub closed spec fn entries(&self) -> Seq<(u16, Seq<u8>)> {
        self.frames@.map_values(|e: (u16, Vec<u8>)| (e.0, e.1@))
    }

    /// No frame index is stored twice.
    pub open spec fn well_formed(&self) -> bool {
        unique_indexes(self.entries())
    }

    /// Create burst assembly state.
    pub fn new(frame_count: u16) -> (r: Self)
        ensures
            r.spec_frame_count() == frame_count,
            r.entries() == Seq::<(u16, Seq<u8>)>::empty(),
            r.well_formed(),
    {
        let r = BurstAssembler { frame_count, frames: Vec::new() };
        assert(r.entries() =~= Seq::<(u16, Seq<u8>)>::empty());
        r
    }

    /// The position of the entry for frame `index`, if there is one.
    fn position(&self, index: u16) -> (r: Option<usize>)
        ensures
            r is None <==> lookup(self.entries(), index) is None,
            r matches Some(i) ==> i < self.entries().len() && lookup(self.entries(), index) == Some(
                self.entries()[i as int].1,
            ),
    {
        let ghost e = self.entries();
        let mut found: Option<usize> = None;
        let mut i: usize = 0;
        while i < self.frames.len()
            invariant
                e == self.entries(),
                e.len() == self.frames@.len(),
                i <= e.len(),
                found is None <==> lookup_in(e, index, i as int) is None,
                found matches Some(j) ==> j < i && lookup_in(e, index, i as int) == Some(e[j as int].1),
            decreases e.len() - i,
        {
            if self.frames[i].0 == index {
                found = Some(i);
            }
            i = i + 1;
        }
        found
    }

    /// The chunks of frames `0..frame_count` joined in frame order.
    fn join(&self) -> (r: Vec<u8>)
        ensures
            r@ == assembled(self.entries(), self.spec_frame_count() as nat),
    {
        let mut payload: Vec<u8> = Vec::new();
        let mut index: u16 = 0;
        while index < self.frame_count
            invariant
                index <= self.frame_count,
                payload@ == assembled(self.entries(), index as nat),
            decreases self.frame_count - index,
        {
            match self.position(index) {
                Some(i) => {
                    push_all(&mut payload, self.frames[i].1.as_slice());
                },
                None => {},
            }
            index = index + 1;
        }
        payload
    }

    /// Push a frame and return the full payload once all frames are present. The
    /// first chunk seen for a frame index is kept; a frame whose count disagrees with
    /// this burst is refused and changes nothing.
    pub fn push(&mut self, frame: &Frame) -> (r: Result<Option<Vec<u8>>, ScannerError>)
        requires
            old(self).well_formed(),
        ensures
            final(self).well_formed(),
            final(self).spec_frame_count() == old(self).spec_frame_count(),
            frame.header.frame_count != old(self).spec_frame_count() ==> {
                &&& (r matches Err(ScannerError::InconsistentBurst(id)) && id == frame.header.stream_id)
                &&& final(self).entries() == old(self).entries()
            },
            frame.header.frame_count == old(self).spec_frame_count() ==> {
                let e = offer(old(self).entries(), frame.header.frame_index, frame.payload@);
                &&& final(self).entries() == e
                &&& e.len() == old(self).spec_frame_count() ==> (r matches Ok(Some(p)) && p@
                    == assembled(e, old(self).spec_frame_count() as nat))
                &&& e.len() != old(self).spec_frame_count() ==> (r matches Ok(None))
            },
    {
        if frame.header.frame_count != self.frame_count {
            return Err(ScannerError::InconsistentBurst(frame.header.stream_id));
        }
        let index = frame.header.frame_index;
        let ghost before = self.entries();
        match self.position(index) {
            Some(_) => {},
            None => {
                let chunk = copy_range(frame.payload.as_slice(), 0, frame.payload.len());
                proof {
                    assert(chunk@ =~= frame.payload@);
                    lemma_lookup_none(before, index, before.len() as int);
                }
                self.frames.push((index, chunk));
                proof {
                    assert(self.entries() =~= before.push((index, frame.payload@)));
                }
            },
        }
        if self.frames.len() == self.frame_count as usize {
            let payload = self.join();
            return Ok(Some(payload));
        }
        Ok(None)
    }
}

/// Once every frame of a burst has arrived, the assembled payload is the frames'
/// payloads joined in frame order, whatever order they arrived in: for the frames of
/// an encoded burst, the payload that was encoded.
pub proof fn lemma_assembled_burst(entries: Seq<(u16, Seq<u8>)>, frames: Seq<EncodedSymbol>, n: nat)
    requires
        n <= frames.len(),
        n <= 65536,
        forall|k: u16| k < n ==> lookup(entries, k) == Some(#[trigger] frames[k as int].frame.payload@),
    ensures
        assembled(entries, n) == joined_payloads(frames, n),
    decreases n,
{
    if n > 0 {
        lemma_assembled_burst(entries, frames, (n - 1) as nat);
        let last = (n - 1) as u16;
        assert(lookup(entries, last) == Some(frames[last as int].frame.payload@));
    }
}

/// Offering a chunk for a frame that is already stored changes nothing: the first
/// chunk seen for each frame index is the one kept.
pub proof fn lemma_offer_duplicate(entries: Seq<(u16, Seq<u8>)>, index: u16, a: Seq<u8>, b: Seq<u8>)
    ensures
        offer(offer(entries, index, a), index, b) == offer(entries, index, a),
{
    if lookup(entries, index) is None {
        lemma_lookup_push(entries, index, a, index);
    }
}

/// Offering chunks for two different frames gives the same lookups in either order.
pub proof fn lemma_offer_commutes(
    entries: Seq<(u16, Seq<u8>)>,
    i: u16,
    a: Seq<u8>,
    j: u16,
    b: Seq<u8>,
    k: u16,
)
    requires
        i != j,
    ensures
        lookup(offer(offer(entries, i, a), j, b), k) == lookup(offer(offer(entries, j, b), i, a), k),
{
    let ea = offer(entries, i, a);
    let eb = offer(entries, j, b);
    if lookup(entries, i) is None {
        lemma_lookup_push(entries, i, a, j);
        lemma_lookup_push(entries, i, a, k);
    }
    if lookup(entries, j) is None {
        lemma_lookup_push(entries, j, b, i);
        lemma_lookup_push(entries, j, b, k);
    }
    if lookup(ea, j) is None {
        lemma_lookup_push(ea, j, b, k);
    }
    if lookup(eb, i) is None {
        lemma_lookup_push(eb, i, a, k);
    }
}

} // verus!

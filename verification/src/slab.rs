//! The staging slab: positional writes into a pre-sized byte buffer, and the
//! proof that the disjoint segment writes reassemble the file exactly.
//!
//! The host's on-disk `.part` file behaves the same way: each chunk lands at
//! an absolute offset, untouched regions keep their previous content, and the
//! per-file exclusion makes every seek-and-write pair atomic. What is proved
//! of this model therefore carries over to any run of the segment tasks, in
//! whatever order their writes interleave.

use vstd::prelude::*;
use crate::state::{
    PartState, DownloadState, wf_state, wf_part, wf_parts, lemma_parts_ordered,
    lemma_part_end_bound, spec_all_completed, apply_chunk,
};
use crate::errors::DlError;

verus! {

/// A byte buffer of fixed length standing for the staging file.
pub struct Slab {
    pub data: Vec<u8>,
}

impl View for Slab {
    type V = Seq<u8>;

    open spec fn view(&self) -> Seq<u8> {
        self.data@
    }
}

impl Slab {
    /// A fresh slab of `total` zero bytes, as pre-allocation leaves the file.
    pub fn new(total: usize) -> (r: Slab)
        ensures
            r@.len() == total,
            forall|i: int| 0 <= i < total ==> r@[i] == 0u8,
    {
        let mut data: Vec<u8> = Vec::new();
        let mut i: usize = 0;
        while i < total
            invariant
                i <= total,
                data@.len() == i,
                forall|k: int| 0 <= k < i ==> data@[k] == 0u8,
            decreases total - i,
        {
            data.push(0u8);
            i = i + 1;
        }
        Slab { data }
    }

    /// A slab holding bytes already on disk, as a resumed run reopens it.
    pub fn from_bytes(data: Vec<u8>) -> (r: Slab)
        ensures
            r@ == data@,
    {
        Slab { data }
    }

    /// The slab's bytes, as the hasher and the commit read them.
    pub fn bytes(&self) -> (r: &Vec<u8>)
        ensures
            r@ == self@,
    {
        &self.data
    }

    /// Writes `chunk` at the absolute `offset`: exactly those positions
    /// change.
    pub fn write_at(&mut self, offset: usize, chunk: &Vec<u8>)
        requires
            offset + chunk@.len() <= old(self)@.len(),
        ensures
            final(self)@.len() == old(self)@.len(),
            forall|i: int|
                offset <= i < offset + chunk@.len() ==> final(self)@[i] == chunk@[i - offset],
            forall|i: int|
                0 <= i < old(self)@.len() && !(offset <= i < offset + chunk@.len())
                    ==> final(self)@[i] == old(self)@[i],
    {
        let total = self.data.len();
        let mut k: usize = 0;
        while k < chunk.len()
            invariant
                k <= chunk@.len(),
                offset + chunk@.len() <= total,
                total == self@.len(),
                self@.len() == old(self)@.len(),
                forall|i: int| offset <= i < offset + k ==> self@[i] == chunk@[i - offset],
                forall|i: int|
                    0 <= i < old(self)@.len() && !(offset <= i < offset + k) ==> self@[i] == old(
                        self,
                    )@[i],
            decreases chunk@.len() - k,
        {
            self.data[offset + k] = chunk[k];
            k = k + 1;
        }
    }
}

/// The slab holds the true content of every byte the segment has landed.
pub open spec fn part_synced(slab: Seq<u8>, p: PartState, content: Seq<u8>) -> bool {
    forall|pos: int| p.start_byte <= pos < p.current_byte ==> slab[pos] == content[pos]
}

/// The slab agrees with the record: it is sized to the file, and every
/// segment's landed range holds the file's true bytes.
pub open spec fn state_synced(slab: Seq<u8>, s: DownloadState, content: Seq<u8>) -> bool {
    &&& content.len() == s.total_size
    &&& slab.len() == s.total_size
    &&& forall|i: int|
        0 <= i < s.parts@.len() ==> part_synced(slab, #[trigger] s.parts@[i], content)
}

/// Delivers one chunk of a segment's ranged response: the bytes land at the
/// segment's cursor, the cursor advances, and the slab stays in agreement
/// with the record. The chunk must be the file's true bytes for that range,
/// which is what a ranged GET returns; a chunk that would run past the end of
/// the segment is rejected and changes nothing.
///
/// Two segment tasks never write overlapping positions: each call touches
/// only `[cursor, cursor + len)` of its own segment, inside that segment's
/// range, and the ranges of distinct segments are disjoint.
#[verifier::rlimit(60)]
pub fn deliver_chunk(
    slab: &mut Slab,
    state: &mut DownloadState,
    part_index: usize,
    chunk: &Vec<u8>,
    Ghost(content): Ghost<Seq<u8>>,
) -> (r: Result<(), DlError>)
    requires
        wf_state(*old(state)),
        old(state).total_size <= usize::MAX,
        part_index < old(state).parts@.len(),
        1 <= chunk@.len(),
        state_synced(old(slab)@, *old(state), content),
        chunk@ == content.subrange(
            old(state).parts@[part_index as int].current_byte as int,
            old(state).parts@[part_index as int].current_byte + chunk@.len(),
        ),
    ensures
        wf_state(*final(state)),
        final(state).url == old(state).url,
        final(state).total_size == old(state).total_size,
        final(state).parts@.len() == old(state).parts@.len(),
        state_synced(final(slab)@, *final(state), content),
        r is Ok <==> old(state).parts@[part_index as int].current_byte + chunk@.len() <= old(
            state,
        ).parts@[part_index as int].end_byte + 1,
        r is Ok ==> {
            let p0 = old(state).parts@[part_index as int];
            let p1 = final(state).parts@[part_index as int];
            &&& p1.current_byte == p0.current_byte + chunk@.len()
            &&& (p1.completed <==> p1.current_byte == p1.end_byte + 1)
        },
        forall|j: int|
            0 <= j < old(state).parts@.len() && j != part_index ==> final(state).parts@[j] == old(
                state,
            ).parts@[j],
        r is Err ==> *final(state) == *old(state) && final(slab)@ == old(slab)@,
{
    let ghost slab0 = slab@;
    let ghost st0 = *state;
    proof {
        lemma_part_end_bound(state.parts@, state.total_size, part_index as int);
    }
    let cur: u64 = state.parts[part_index].current_byte;
    match apply_chunk(state, part_index, chunk.len() as u64) {
        Err(e) => Err(e),
        Ok(()) => {
            slab.write_at(cur as usize, chunk);
            proof {
                assert forall|i: int| cur <= i < cur + chunk@.len() implies slab@[i]
                    == content[i] by {
                    assert(slab@[i] == chunk@[i - cur]);
                }
                lemma_sync_after_write(
                    slab0,
                    slab@,
                    st0,
                    *state,
                    part_index as int,
                    chunk@.len() as int,
                    content,
                );
            }
            Ok(())
        },
    }
}

/// A write inside one segment's range, at that segment's cursor, keeps every
/// segment in agreement with the file's true content.
proof fn lemma_sync_after_write(
    slab0: Seq<u8>,
    slab1: Seq<u8>,
    st0: DownloadState,
    st1: DownloadState,
    pi: int,
    len: int,
    content: Seq<u8>,
)
    requires
        wf_state(st0),
        0 <= pi < st0.parts@.len(),
        st1.parts@.len() == st0.parts@.len(),
        st1.total_size == st0.total_size,
        forall|j: int| 0 <= j < st0.parts@.len() && j != pi ==> st1.parts@[j] == st0.parts@[j],
        st1.parts@[pi].start_byte == st0.parts@[pi].start_byte,
        st1.parts@[pi].end_byte == st0.parts@[pi].end_byte,
        st1.parts@[pi].current_byte == st0.parts@[pi].current_byte + len,
        1 <= len,
        st0.parts@[pi].current_byte + len <= st0.parts@[pi].end_byte + 1,
        state_synced(slab0, st0, content),
        slab1.len() == slab0.len(),
        forall|i: int|
            st0.parts@[pi].current_byte <= i < st0.parts@[pi].current_byte + len ==> slab1[i]
                == content[i],
        forall|i: int|
            0 <= i < slab0.len() && !(st0.parts@[pi].current_byte <= i < st0.parts@[pi].current_byte
                + len) ==> slab1[i] == slab0[i],
    ensures
        state_synced(slab1, st1, content),
{
    let cur = st0.parts@[pi].current_byte as int;
    assert forall|j: int| 0 <= j < st1.parts@.len() implies part_synced(
        slab1,
        #[trigger] st1.parts@[j],
        content,
    ) by {
        assert(part_synced(slab0, st0.parts@[j], content));
        assert(wf_part(st0.parts@[j]));
        assert(wf_part(st0.parts@[pi]));
        if j != pi {
            if j < pi {
                lemma_parts_ordered(st0.parts@, st0.total_size, j, pi);
            } else {
                lemma_parts_ordered(st0.parts@, st0.total_size, pi, j);
            }
            lemma_part_end_bound(st0.parts@, st0.total_size, j);
            assert forall|pos: int|
                st1.parts@[j].start_byte <= pos < st1.parts@[j].current_byte implies slab1[pos]
                == content[pos] by {
                assert(slab1[pos] == slab0[pos]);
            }
        } else {
            lemma_part_end_bound(st0.parts@, st0.total_size, pi);
            assert forall|pos: int|
                st1.parts@[j].start_byte <= pos < st1.parts@[j].current_byte implies slab1[pos]
                == content[pos] by {
                if pos < cur {
                    assert(slab1[pos] == slab0[pos]);
                }
            }
        }
    }
}

/// Every byte position of the file lies in some segment's range.
proof fn lemma_pos_covered(parts: Seq<PartState>, total_size: u64, pos: int)
    requires
        wf_parts(parts, total_size),
        parts.len() > 0,
        0 <= pos < total_size,
    ensures
        exists|i: int|
            0 <= i < parts.len() && (#[trigger] parts[i]).start_byte <= pos <= parts[i].end_byte,
    decreases parts.len(),
{
    let last = parts.len() - 1;
    if pos >= parts[last].start_byte {
        assert(parts[last].start_byte <= pos <= parts[last].end_byte);
    } else {
        let prefix = parts.drop_last();
        let total2 = parts[last].start_byte;
        assert(parts[last - 1].end_byte + 1 == parts[last].start_byte);
        assert(wf_parts(prefix, total2 as u64)) by {
            assert(forall|i: int| 0 <= i < prefix.len() ==> prefix[i] == parts[i]);
        }
        lemma_pos_covered(prefix, total2 as u64, pos);
        let i = choose|i: int|
            0 <= i < prefix.len() && (#[trigger] prefix[i]).start_byte <= pos
                <= prefix[i].end_byte;
        assert(parts[i].start_byte <= pos <= parts[i].end_byte);
    }
}

/// Resume correctness, at the heart: once every segment of a record in
/// agreement with the slab has completed, the slab holds exactly the file's
/// true content — no matter where a previous run was cut off, and in whatever
/// order the segment tasks' writes interleaved.
pub proof fn lemma_completed_slab_is_content(slab: Seq<u8>, s: DownloadState, content: Seq<u8>)
    requires
        wf_state(s),
        s.total_size > 0,
        state_synced(slab, s, content),
        spec_all_completed(s),
    ensures
        slab == content,
{
    assert forall|pos: int| 0 <= pos < slab.len() implies slab[pos] == content[pos] by {
        lemma_pos_covered(s.parts@, s.total_size, pos);
        let i = choose|i: int|
            0 <= i < s.parts@.len() && (#[trigger] s.parts@[i]).start_byte <= pos
                <= s.parts@[i].end_byte;
        assert(wf_part(s.parts@[i]));
        assert(s.parts@[i].current_byte == s.parts@[i].end_byte + 1);
        assert(part_synced(slab, s.parts@[i], content));
    }
    assert(slab =~= content);
}

} // verus!

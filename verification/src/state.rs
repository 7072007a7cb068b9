//! Durable per-file resume state: the segment partition of a target file and
//! the progress of each segment.

use vstd::prelude::*;
use vstd::arithmetic::div_mod::{lemma_fundamental_div_mod, lemma_mod_bound};
use crate::errors::DlError;

verus! {

/// One contiguous byte range of a target file, fetched by a single ranged GET.
/// `end_byte` is inclusive; `current_byte` is the next byte to write.
#[derive(Clone, Copy, Debug, PartialEq, Eq, Structural)]
pub struct PartState {
    pub index: usize,
    pub start_byte: u64,
    pub end_byte: u64,
    pub current_byte: u64,
    pub completed: bool,
}

/// Per-file record. `total_size == 0` means the size is unknown and the file
/// is handled by the single-connection fallback, with no segments.
#[derive(Clone, Debug, PartialEq, Eq)]
pub struct DownloadState {
    pub url: String,
    pub total_size: u64,
    pub parts: Vec<PartState>,
}

/// A segment's progress cursor sits inside its range, and `completed` holds
/// exactly when the cursor has passed the last byte.
pub open spec fn wf_part(p: PartState) -> bool {
    &&& p.start_byte <= p.current_byte <= p.end_byte + 1
    &&& (p.completed <==> p.current_byte == p.end_byte + 1)
}

/// The segments form a contiguous, non-empty partition of `[0, total_size)`:
/// the first starts at 0, each next one starts right after its predecessor,
/// and the last ends at `total_size - 1`.
pub open spec fn wf_parts(parts: Seq<PartState>, total_size: u64) -> bool {
    &&& forall|i: int| 0 <= i < parts.len() ==> wf_part(#[trigger] parts[i])
    &&& forall|i: int| 0 <= i < parts.len() ==> (#[trigger] parts[i]).index == i
    &&& forall|i: int|
        0 <= i < parts.len() ==> (#[trigger] parts[i]).start_byte <= parts[i].end_byte
    &&& parts.len() > 0 ==> parts[0].start_byte == 0
    &&& parts.len() > 0 ==> parts[parts.len() - 1].end_byte + 1 == total_size
    &&& forall|i: int|
        0 < i < parts.len() ==> (#[trigger] parts[i]).start_byte == parts[i - 1].end_byte + 1
}

pub open spec fn wf_state(s: DownloadState) -> bool {
    &&& s.total_size == 0 ==> s.parts@.len() == 0
    &&& s.total_size > 0 ==> s.parts@.len() >= 1 && wf_parts(s.parts@, s.total_size)
}

/// How many segments a file of `total_size` bytes is split into when the
/// configuration asks for `split_count`: a file smaller than the split count
/// gets a single segment covering the whole range.
pub open spec fn spec_effective_split(total_size: u64, split_count: usize) -> int {
    if total_size < split_count { 1 } else { split_count as int }
}

pub fn effective_split(total_size: u64, split_count: usize) -> (s: usize)
    requires
        total_size >= 1,
        split_count >= 1,
    ensures
        s == spec_effective_split(total_size, split_count),
        1 <= s <= split_count,
{
    if total_size < split_count as u64 {
        1
    } else {
        split_count
    }
}

/// Builds the fresh state record for a URL whose size a HEAD request reported.
/// A zero (unknown) size yields an empty partition, handing the file to the
/// single-connection fallback. Otherwise the range `[0, total_size)` is cut
/// into equal segments, the last absorbing the remainder, and every cursor
/// starts at its segment's first byte.
pub fn init_state(url: String, total_size: u64, split_count: usize) -> (r: DownloadState)
    requires
        split_count >= 1,
    ensures
        r.url == url,
        r.total_size == total_size,
        wf_state(r),
        total_size == 0 ==> r.parts@.len() == 0,
        total_size > 0 ==> r.parts@.len() == spec_effective_split(total_size, split_count),
        forall|i: int|
            0 <= i < r.parts@.len() ==> (#[trigger] r.parts@[i]).current_byte
                == r.parts@[i].start_byte && !r.parts@[i].completed,
        forall|i: int|
            0 <= i < r.parts@.len() ==> (#[trigger] r.parts@[i]).start_byte == i * (
            total_size as int / spec_effective_split(total_size, split_count)),
        forall|i: int|
            0 <= i < r.parts@.len() - 1 ==> (#[trigger] r.parts@[i]).end_byte + 1 == (i + 1) * (
            total_size as int / spec_effective_split(total_size, split_count)),
{
    if total_size == 0 {
        return DownloadState { url, total_size: 0, parts: Vec::new() };
    }
    let s: usize = effective_split(total_size, split_count);
    let part_size: u64 = total_size / (s as u64);
    proof {
        lemma_fundamental_div_mod(total_size as int, s as int);
        lemma_mod_bound(total_size as int, s as int);
        assert(part_size >= 1) by (nonlinear_arith)
            requires
                part_size == total_size as int / s as int,
                total_size >= s >= 1,
        ;
    }
    let ghost ps = part_size as int;
    let mut parts: Vec<PartState> = Vec::new();
    let mut next_start: u64 = 0;
    let mut i: usize = 0;
    while i < s
        invariant
            1 <= s,
            s == spec_effective_split(total_size, split_count),
            1 <= part_size,
            ps == part_size as int,
            ps == total_size as int / s as int,
            s as int * ps <= total_size,
            i <= s,
            parts@.len() == i,
            i < s ==> next_start == i as int * ps,
            i > 0 ==> next_start == parts@[i - 1].end_byte + 1,
            forall|k: int| 0 <= k < i ==> (#[trigger] parts@[k]).index == k,
            forall|k: int| 0 <= k < i ==> (#[trigger] parts@[k]).start_byte == k * ps,
            forall|k: int|
                0 <= k < i ==> (#[trigger] parts@[k]).current_byte == parts@[k].start_byte,
            forall|k: int| 0 <= k < i ==> !(#[trigger] parts@[k]).completed,
            forall|k: int|
                0 <= k < i ==> (#[trigger] parts@[k]).start_byte <= parts@[k].end_byte,
            forall|k: int|
                0 <= k < i && k < s - 1 ==> (#[trigger] parts@[k]).end_byte + 1 == (k + 1) * ps,
            forall|k: int|
                0 <= k < i && k == s - 1 ==> (#[trigger] parts@[k]).end_byte + 1
                    == total_size as int,
            forall|k: int|
                0 < k < i ==> (#[trigger] parts@[k]).start_byte == parts@[k - 1].end_byte + 1,
        decreases s - i,
    {
        proof {
            assert((i + 1) as int * ps <= s as int * ps) by (nonlinear_arith)
                requires
                    i + 1 <= s,
                    ps >= 1,
            ;
            assert(i as int * ps + ps == (i + 1) as int * ps) by (nonlinear_arith);
        }
        let end_byte: u64 = if i == s - 1 {
            total_size - 1
        } else {
            next_start + part_size - 1
        };
        proof {
            if i == s - 1 {
                assert(next_start + ps <= total_size);
            }
        }
        parts.push(
            PartState {
                index: i,
                start_byte: next_start,
                end_byte,
                current_byte: next_start,
                completed: false,
            },
        );
        next_start = end_byte + 1;
        i = i + 1;
    }
    DownloadState { url, total_size, parts }
}

/// Segments with smaller indices end strictly before later ones begin; in
/// particular the byte ranges of two distinct segments never overlap, so
/// their positional writes never touch the same offset.
pub proof fn lemma_parts_ordered(parts: Seq<PartState>, total_size: u64, i: int, j: int)
    requires
        wf_parts(parts, total_size),
        0 <= i < j < parts.len(),
    ensures
        parts[i].end_byte < parts[j].start_byte,
    decreases j - i,
{
    if i + 1 == j {
    } else {
        lemma_parts_ordered(parts, total_size, i, j - 1);
    }
}

/// Every segment ends before `total_size`.
pub proof fn lemma_part_end_bound(parts: Seq<PartState>, total_size: u64, i: int)
    requires
        wf_parts(parts, total_size),
        0 <= i < parts.len(),
    ensures
        parts[i].end_byte < total_size,
{
    if i < parts.len() - 1 {
        lemma_parts_ordered(parts, total_size, i, parts.len() - 1);
    }
}

/// Bytes a segment has already landed on disk.
pub open spec fn spec_part_downloaded(p: PartState) -> int {
    p.current_byte - p.start_byte
}

/// Bytes the first `n` segments have landed.
pub open spec fn spec_downloaded_prefix(parts: Seq<PartState>, n: int) -> int
    decreases n,
{
    if n <= 0 {
        0
    } else {
        spec_downloaded_prefix(parts, n - 1) + spec_part_downloaded(parts[n - 1])
    }
}

/// Bytes the whole file has landed so far.
pub open spec fn spec_downloaded(s: DownloadState) -> int {
    spec_downloaded_prefix(s.parts@, s.parts@.len() as int)
}

proof fn lemma_downloaded_prefix_bound(parts: Seq<PartState>, total_size: u64, n: int)
    requires
        wf_parts(parts, total_size),
        0 < n <= parts.len(),
    ensures
        0 <= spec_downloaded_prefix(parts, n) <= parts[n - 1].end_byte + 1,
    decreases n,
{
    if n == 1 {
        assert(spec_downloaded_prefix(parts, 0) == 0);
        assert(wf_part(parts[0]));
        assert(parts[0].start_byte == 0);
    } else {
        lemma_downloaded_prefix_bound(parts, total_size, n - 1);
        assert(wf_part(parts[n - 1]));
        assert(parts[n - 1].start_byte == parts[n - 2].end_byte + 1);
    }
}

/// The numerator never exceeds the denominator: a well-formed record has
/// landed at most `total_size` bytes.
pub proof fn lemma_downloaded_le_total(s: DownloadState)
    requires
        wf_state(s),
    ensures
        0 <= spec_downloaded(s) <= s.total_size,
{
    if s.parts@.len() > 0 {
        lemma_downloaded_prefix_bound(s.parts@, s.total_size, s.parts@.len() as int);
    }
}

pub open spec fn spec_sum_downloaded(ss: Seq<DownloadState>) -> int
    decreases ss.len(),
{
    if ss.len() == 0 {
        0
    } else {
        spec_sum_downloaded(ss.drop_last()) + spec_downloaded(ss.last())
    }
}

pub open spec fn spec_sum_totals(ss: Seq<DownloadState>) -> int
    decreases ss.len(),
{
    if ss.len() == 0 {
        0
    } else {
        spec_sum_totals(ss.drop_last()) + ss.last().total_size
    }
}

/// Across any set of well-formed records the numerator stays behind the
/// denominator: the bytes landed by every engine together never exceed the
/// known bytes they are counted against.
pub proof fn lemma_sum_downloaded_le_known(ss: Seq<DownloadState>)
    requires
        forall|i: int| 0 <= i < ss.len() ==> wf_state(#[trigger] ss[i]),
    ensures
        0 <= spec_sum_downloaded(ss) <= spec_sum_totals(ss),
    decreases ss.len(),
{
    if ss.len() > 0 {
        assert(forall|i: int| 0 <= i < ss.drop_last().len() ==> ss.drop_last()[i] == ss[i]);
        lemma_sum_downloaded_le_known(ss.drop_last());
        lemma_downloaded_le_total(ss.last());
    }
}

/// Sums the landed bytes of every segment, as the progress display needs.
pub fn downloaded_bytes(s: &DownloadState) -> (r: u64)
    requires
        wf_state(*s),
    ensures
        r == spec_downloaded(*s),
        r <= s.total_size,
{
    proof {
        lemma_downloaded_le_total(*s);
    }
    let mut sum: u64 = 0;
    let mut i: usize = 0;
    while i < s.parts.len()
        invariant
            wf_state(*s),
            i <= s.parts@.len(),
            sum == spec_downloaded_prefix(s.parts@, i as int),
            sum <= s.total_size,
        decreases s.parts@.len() - i,
    {
        proof {
            lemma_downloaded_prefix_bound(s.parts@, s.total_size, i + 1 as int);
            lemma_part_end_bound(s.parts@, s.total_size, i as int);
        }
        let p = s.parts[i];
        sum = sum + (p.current_byte - p.start_byte);
        i = i + 1;
    }
    sum
}

/// Applies one arriving chunk of `len` bytes to segment `part_index`: the
/// cursor advances by `len`, and the segment is completed exactly when the
/// cursor has passed its last byte. A chunk that would run past the end of
/// the segment is rejected and leaves the record unchanged.
pub fn apply_chunk(state: &mut DownloadState, part_index: usize, len: u64) -> (r: Result<
    (),
    DlError,
>)
    requires
        wf_state(*old(state)),
        part_index < old(state).parts@.len(),
        1 <= len,
    ensures
        wf_state(*final(state)),
        final(state).url == old(state).url,
        final(state).total_size == old(state).total_size,
        final(state).parts@.len() == old(state).parts@.len(),
        forall|j: int|
            0 <= j < old(state).parts@.len() && j != part_index ==> final(state).parts@[j]
                == old(state).parts@[j],
        r is Ok <==> old(state).parts@[part_index as int].current_byte + len <= old(
            state,
        ).parts@[part_index as int].end_byte + 1,
        r is Ok ==> {
            let p0 = old(state).parts@[part_index as int];
            let p1 = final(state).parts@[part_index as int];
            &&& p1.current_byte == p0.current_byte + len
            &&& p1.start_byte == p0.start_byte
            &&& p1.end_byte == p0.end_byte
            &&& p1.index == p0.index
            &&& (p1.completed <==> p1.current_byte == p1.end_byte + 1)
        },
        r is Err ==> *final(state) == *old(state) && r == Result::<(), DlError>::Err(
            DlError::OverlongStream,
        ),
{
    proof {
        lemma_part_end_bound(state.parts@, state.total_size, part_index as int);
    }
    let p = state.parts[part_index];
    if len > (p.end_byte + 1) - p.current_byte {
        return Err(DlError::OverlongStream);
    }
    let new_current = p.current_byte + len;
    let newp = PartState {
        current_byte: new_current,
        completed: new_current == p.end_byte + 1,
        ..p
    };
    state.parts[part_index] = newp;
    Ok(())
}

/// The decision when a segment's byte stream ends: the segment is done only
/// if its cursor has passed its last byte; otherwise the transport ended
/// mid-segment and the file fails for this run, resumable from the record.
pub fn segment_stream_ended(state: &DownloadState, part_index: usize) -> (r: Result<(), DlError>)
    requires
        wf_state(*state),
        part_index < state.parts@.len(),
    ensures
        r is Ok <==> state.parts@[part_index as int].completed,
        r is Ok <==> state.parts@[part_index as int].current_byte
            == state.parts@[part_index as int].end_byte + 1,
        r is Err ==> r == Result::<(), DlError>::Err(DlError::ShortStream),
{
    if state.parts[part_index].completed {
        Ok(())
    } else {
        Err(DlError::ShortStream)
    }
}

fn check_wf_part(p: &PartState) -> (r: bool)
    ensures
        r == wf_part(*p),
{
    if p.current_byte < p.start_byte {
        return false;
    }
    let at_end = p.end_byte < u64::MAX && p.current_byte == p.end_byte + 1;
    if !(p.current_byte <= p.end_byte || at_end) {
        return false;
    }
    if p.completed != at_end {
        return false;
    }
    true
}

/// Decides the record invariant, as a loaded record must be held to it before
/// the engine trusts its offsets.
pub fn check_wf_state(s: &DownloadState) -> (r: bool)
    ensures
        r == wf_state(*s),
{
    let n = s.parts.len();
    if s.total_size == 0 {
        return n == 0;
    }
    if n == 0 {
        return false;
    }
    let mut i: usize = 0;
    while i < n
        invariant
            n == s.parts@.len(),
            s.total_size > 0,
            n >= 1,
            i <= n,
            forall|k: int| 0 <= k < i ==> wf_part(#[trigger] s.parts@[k]),
            forall|k: int| 0 <= k < i ==> (#[trigger] s.parts@[k]).index == k,
            forall|k: int|
                0 <= k < i ==> (#[trigger] s.parts@[k]).start_byte <= s.parts@[k].end_byte,
            i > 0 ==> s.parts@[0].start_byte == 0,
            forall|k: int|
                0 < k < i ==> (#[trigger] s.parts@[k]).start_byte == s.parts@[k - 1].end_byte + 1,
        decreases n - i,
    {
        let p = s.parts[i];
        if !check_wf_part(&p) {
            return false;
        }
        if p.index != i {
            return false;
        }
        if p.start_byte > p.end_byte {
            return false;
        }
        if i == 0 {
            if p.start_byte != 0 {
                return false;
            }
        } else {
            let prev_end = s.parts[i - 1].end_byte;
            if prev_end == u64::MAX || p.start_byte != prev_end + 1 {
                return false;
            }
        }
        i = i + 1;
    }
    let last_end = s.parts[n - 1].end_byte;
    if last_end == u64::MAX || last_end + 1 != s.total_size {
        return false;
    }
    true
}

/// True when every segment of the record is completed.
pub open spec fn spec_all_completed(s: DownloadState) -> bool {
    forall|i: int| 0 <= i < s.parts@.len() ==> (#[trigger] s.parts@[i]).completed
}

pub fn all_completed(s: &DownloadState) -> (r: bool)
    ensures
        r == spec_all_completed(*s),
{
    let mut i: usize = 0;
    while i < s.parts.len()
        invariant
            i <= s.parts@.len(),
            forall|k: int| 0 <= k < i ==> (#[trigger] s.parts@[k]).completed,
        decreases s.parts@.len() - i,
    {
        if !s.parts[i].completed {
            return false;
        }
        i = i + 1;
    }
    true
}

} // verus!

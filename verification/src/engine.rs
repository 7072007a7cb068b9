//! Per-file engine decisions: what to do with a file, how to read HEAD and
//! ranged-GET responses, and how each outcome moves the global counters. The
//! host performs the network and filesystem actions these decisions name.

use vstd::prelude::*;
use crate::counters::{GlobalCounters, sat_add_u64, sat_add_usize};
use crate::errors::DlError;
use crate::state::DownloadState;

verus! {

/// What the engine does with one file.
#[derive(Clone, Copy, Debug, PartialEq, Eq, Structural)]
pub enum FilePlan {
    /// The final file already exists: count it as completed ("skipped") and
    /// touch nothing on disk.
    SkipExisting,
    /// The size is unknown: stream over a single connection, appending.
    Fallback,
    /// Spawn one task per incomplete segment of the record.
    Segmented,
}

/// The per-file dispatch: an existing final file is skipped; a record without
/// a known size goes to the single-connection fallback; anything else is
/// fetched segment by segment.
pub fn plan_file(final_exists: bool, state: &DownloadState) -> (r: FilePlan)
    ensures
        final_exists ==> r == FilePlan::SkipExisting,
        !final_exists && state.total_size == 0 ==> r == FilePlan::Fallback,
        !final_exists && state.total_size > 0 ==> r == FilePlan::Segmented,
{
    if final_exists {
        FilePlan::SkipExisting
    } else if state.total_size == 0 {
        FilePlan::Fallback
    } else {
        FilePlan::Segmented
    }
}

/// What a HEAD response says about the file's size: a 2xx status with a
/// Content-Length is trusted; anything else means the size is unknown.
pub fn head_size(status: u16, content_length: Option<u64>) -> (r: u64)
    ensures
        200 <= status < 300 && content_length is Some ==> r == content_length->0,
        !(200 <= status < 300) || content_length is None ==> r == 0,
{
    if 200 <= status && status < 300 {
        match content_length {
            Some(n) => n,
            None => 0,
        }
    } else {
        0
    }
}

/// How a ranged GET's status is read: `206 Partial Content` is the only
/// success; `200 OK` means the server ignored the range, which fails the file
/// for this run with its state preserved; any other status is an HTTP error.
pub fn classify_ranged_status(status: u16) -> (r: Result<(), DlError>)
    ensures
        r is Ok <==> status == 206,
        status == 200 ==> r == Result::<(), DlError>::Err(DlError::RangeNotHonored),
        status != 200 && status != 206 ==> r == Result::<(), DlError>::Err(
            DlError::HttpStatus(status),
        ),
{
    if status == 206 {
        Ok(())
    } else if status == 200 {
        Err(DlError::RangeNotHonored)
    } else {
        Err(DlError::HttpStatus(status))
    }
}

/// How an unranged GET's status is read: any 2xx streams the body.
pub fn classify_plain_status(status: u16) -> (r: Result<(), DlError>)
    ensures
        r is Ok <==> 200 <= status < 300,
        r is Err ==> r == Result::<(), DlError>::Err(DlError::HttpStatus(status)),
{
    if 200 <= status && status < 300 {
        Ok(())
    } else {
        Err(DlError::HttpStatus(status))
    }
}

/// Books a skipped file: one more completed file, its bytes count as
/// downloaded, and if the pre-scan had not learned its size, the size becomes
/// known now. Running a completed file a second time therefore changes
/// nothing on disk and moves only these counters.
pub fn record_skip(counters: &mut GlobalCounters, size: u64, in_prescan: bool)
    ensures
        final(counters).completed_files == sat_add_usize(old(counters).completed_files as int, 1),
        final(counters).bytes_downloaded == sat_add_u64(
            old(counters).bytes_downloaded as int,
            size as int,
        ),
        in_prescan ==> final(counters).bytes_known == old(counters).bytes_known,
        !in_prescan ==> final(counters).bytes_known == sat_add_u64(
            old(counters).bytes_known as int,
            size as int,
        ),
        final(counters).completed_files >= old(counters).completed_files,
        final(counters).bytes_downloaded >= old(counters).bytes_downloaded,
        final(counters).bytes_known >= old(counters).bytes_known,
{
    counters.add_completed();
    counters.add_downloaded(size);
    if !in_prescan {
        counters.add_known(size);
    }
}

/// Books a size learned after the pre-scan: only a positive size not already
/// counted moves `bytes_known`.
pub fn record_size_learned(counters: &mut GlobalCounters, total_size: u64, in_prescan: bool)
    ensures
        !in_prescan && total_size > 0 ==> final(counters).bytes_known == sat_add_u64(
            old(counters).bytes_known as int,
            total_size as int,
        ),
        in_prescan || total_size == 0 ==> final(counters).bytes_known == old(
            counters,
        ).bytes_known,
        final(counters).bytes_known >= old(counters).bytes_known,
        final(counters).completed_files == old(counters).completed_files,
        final(counters).bytes_downloaded == old(counters).bytes_downloaded,
{
    if !in_prescan && total_size > 0 {
        counters.add_known(total_size);
    }
}

/// The single-connection fallback's request: resume from the slab's current
/// length with an open-ended range, or a plain GET when nothing is there yet;
/// the progress total is what is already on disk plus what the response
/// announces.
pub fn fallback_request(existing_len: u64, content_length: Option<u64>) -> (r: (
    Option<u64>,
    u64,
))
    ensures
        r.0 == (if existing_len > 0 {
            Some(existing_len)
        } else {
            Option::<u64>::None
        }),
        r.1 == sat_add_u64(
            existing_len as int,
            match content_length {
                Some(n) => n as int,
                None => 0,
            },
        ),
{
    let announced = match content_length {
        Some(n) => n,
        None => 0,
    };
    let total = if announced > u64::MAX - existing_len {
        u64::MAX
    } else {
        existing_len + announced
    };
    let range = if existing_len > 0 {
        Some(existing_len)
    } else {
        None
    };
    (range, total)
}

/// One second of the configured rate, the most the limiter is asked for at
/// once; a configuration without a usable rate falls back to single bytes.
pub open spec fn spec_burst(rate: u32) -> int {
    if rate >= 1 {
        rate as int
    } else {
        1
    }
}

/// The sub-chunk the rate limiter is asked for next: the rest of the chunk,
/// but never more than one second of quota, so a chunk larger than the burst
/// cannot wedge the limiter.
pub fn next_subchunk(left: usize, rate: u32) -> (n: usize)
    requires
        left >= 1,
    ensures
        n == if left <= spec_burst(rate) {
            left as int
        } else {
            spec_burst(rate)
        },
        1 <= n <= left,
{
    let burst: usize = if rate >= 1 {
        rate as usize
    } else {
        1
    };
    if left <= burst {
        left
    } else {
        burst
    }
}

/// The indices of the segments a run still has to fetch, in order.
pub fn incomplete_indices(state: &DownloadState) -> (r: Vec<usize>)
    ensures
        forall|k: int|
            0 <= k < r@.len() ==> (#[trigger] r@[k]) < state.parts@.len() && !state.parts@[
                r@[k] as int
            ].completed,
        forall|j: int|
            0 <= j < state.parts@.len() && !(#[trigger] state.parts@[j]).completed ==> r@.contains(
                j as usize,
            ),
        forall|k1: int, k2: int| 0 <= k1 < k2 < r@.len() ==> r@[k1] < r@[k2],
{
    let mut r: Vec<usize> = Vec::new();
    let mut i: usize = 0;
    while i < state.parts.len()
        invariant
            i <= state.parts@.len(),
            forall|k: int|
                0 <= k < r@.len() ==> (#[trigger] r@[k]) < i && !state.parts@[
                    r@[k] as int
                ].completed,
            forall|j: int|
                0 <= j < i && !(#[trigger] state.parts@[j]).completed ==> r@.contains(j as usize),
            forall|k1: int, k2: int| 0 <= k1 < k2 < r@.len() ==> r@[k1] < r@[k2],
        decreases state.parts@.len() - i,
    {
        let ghost prev = r@;
        if !state.parts[i].completed {
            r.push(i);
            proof {
                assert(r@ == prev.push(i));
                assert forall|j: int|
                    0 <= j < i + 1 && !(#[trigger] state.parts@[j]).completed implies r@.contains(
                    j as usize,
                ) by {
                    if j < i {
                        assert(prev.contains(j as usize));
                        let w = choose|w: int| 0 <= w < prev.len() && prev[w] == j as usize;
                        assert(r@[w] == j as usize);
                    } else {
                        assert(r@[r@.len() - 1] == i);
                    }
                }
            }
        }
        i = i + 1;
    }
    r
}

} // verus!

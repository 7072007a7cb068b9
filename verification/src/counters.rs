//! The progress aggregator's counters: completed files, bytes downloaded,
//! bytes known. Every update leaves each counter no smaller than before; the
//! host shares them across engines through atomic adds of the same amounts.

use vstd::prelude::*;

verus! {

/// Addition that stops at the type's ceiling instead of wrapping, so the
/// counters stay monotonic whatever arrives.
pub open spec fn sat_add_u64(a: int, b: int) -> int {
    if a + b > u64::MAX {
        u64::MAX as int
    } else {
        a + b
    }
}

pub open spec fn sat_add_usize(a: int, b: int) -> int {
    if a + b > usize::MAX {
        usize::MAX as int
    } else {
        a + b
    }
}

fn sat_add(a: u64, b: u64) -> (r: u64)
    ensures
        r == sat_add_u64(a as int, b as int),
        r >= a,
        r >= b,
{
    if b > u64::MAX - a {
        u64::MAX
    } else {
        a + b
    }
}

/// Process-wide progress counters, visible to all engines.
#[derive(Clone, Copy, Debug, PartialEq, Eq, Structural)]
pub struct GlobalCounters {
    pub completed_files: usize,
    pub bytes_downloaded: u64,
    pub bytes_known: u64,
}

impl GlobalCounters {
    /// Fresh counters; `bytes_known` starts at the sum of the sizes the
    /// pre-scan of HEAD results learned.
    pub fn new(initial_known: u64) -> (r: GlobalCounters)
        ensures
            r.completed_files == 0,
            r.bytes_downloaded == 0,
            r.bytes_known == initial_known,
    {
        GlobalCounters { completed_files: 0, bytes_downloaded: 0, bytes_known: initial_known }
    }

    /// One more file is done (downloaded, or found already present). The
    /// count never decreases.
    pub fn add_completed(&mut self)
        ensures
            final(self).completed_files == sat_add_usize(old(self).completed_files as int, 1),
            final(self).completed_files >= old(self).completed_files,
            final(self).bytes_downloaded == old(self).bytes_downloaded,
            final(self).bytes_known == old(self).bytes_known,
    {
        if self.completed_files < usize::MAX {
            self.completed_files = self.completed_files + 1;
        }
    }

    /// `n` more bytes landed. The count never decreases.
    pub fn add_downloaded(&mut self, n: u64)
        ensures
            final(self).bytes_downloaded == sat_add_u64(old(self).bytes_downloaded as int, n as int),
            final(self).bytes_downloaded >= old(self).bytes_downloaded,
            final(self).completed_files == old(self).completed_files,
            final(self).bytes_known == old(self).bytes_known,
    {
        self.bytes_downloaded = sat_add(self.bytes_downloaded, n);
    }

    /// `n` more bytes of total size became known. The count never decreases,
    /// so the denominator never falls behind the numerator it once covered.
    pub fn add_known(&mut self, n: u64)
        ensures
            final(self).bytes_known == sat_add_u64(old(self).bytes_known as int, n as int),
            final(self).bytes_known >= old(self).bytes_known,
            final(self).completed_files == old(self).completed_files,
            final(self).bytes_downloaded == old(self).bytes_downloaded,
    {
        self.bytes_known = sat_add(self.bytes_known, n);
    }
}

/// The sizes the pre-scan learned, as `(url, size)` records: HEAD answers
/// without a usable length are left out.
pub open spec fn spec_known_sizes(results: Seq<(Seq<char>, u64)>) -> Seq<(Seq<char>, u64)>
    decreases results.len(),
{
    if results.len() == 0 {
        Seq::empty()
    } else if results.last().1 > 0 {
        spec_known_sizes(results.drop_last()).push(results.last())
    } else {
        spec_known_sizes(results.drop_last())
    }
}

pub open spec fn pairs_view(pairs: Seq<(String, u64)>) -> Seq<(Seq<char>, u64)> {
    Seq::new(pairs.len(), |i: int| (pairs[i].0@, pairs[i].1))
}

/// Keeps the HEAD results that learned a size, in order.
pub fn known_sizes(results: &Vec<(String, u64)>) -> (r: Vec<(String, u64)>)
    ensures
        pairs_view(r@) == spec_known_sizes(pairs_view(results@)),
{
    let mut out: Vec<(String, u64)> = Vec::new();
    let mut i: usize = 0;
    proof {
        assert(pairs_view(results@.take(0)) =~= Seq::<(Seq<char>, u64)>::empty());
        assert(pairs_view(out@) =~= Seq::<(Seq<char>, u64)>::empty());
    }
    while i < results.len()
        invariant
            i <= results@.len(),
            pairs_view(out@) == spec_known_sizes(pairs_view(results@.take(i as int))),
        decreases results@.len() - i,
    {
        proof {
            assert(pairs_view(results@.take(i + 1)).drop_last() =~= pairs_view(
                results@.take(i as int),
            ));
            assert(pairs_view(results@.take(i + 1)).last() == (results@[i as int].0@, results@[
                i as int].1));
        }
        let ghost prev = out@;
        let size = results[i].1;
        if size > 0 {
            let url = results[i].0.clone();
            out.push((url, size));
            proof {
                assert(pairs_view(out@) =~= pairs_view(prev).push(
                    (results@[i as int].0@, results@[i as int].1),
                ));
            }
        }
        i = i + 1;
    }
    proof {
        assert(results@.take(results@.len() as int) =~= results@);
    }
    out
}

/// Sum of the sizes a list of records carries, stopping at the ceiling.
pub open spec fn spec_sum_sizes(entries: Seq<(Seq<char>, u64)>) -> int
    decreases entries.len(),
{
    if entries.len() == 0 {
        0
    } else {
        sat_add_u64(spec_sum_sizes(entries.drop_last()), entries.last().1 as int)
    }
}

/// The initial `bytes_known`: the sum of every size the pre-scan learned.
pub fn sum_sizes(entries: &Vec<(String, u64)>) -> (r: u64)
    ensures
        r == spec_sum_sizes(pairs_view(entries@)),
{
    let mut sum: u64 = 0;
    let mut i: usize = 0;
    proof {
        assert(pairs_view(entries@.take(0)) =~= Seq::<(Seq<char>, u64)>::empty());
    }
    while i < entries.len()
        invariant
            i <= entries@.len(),
            sum == spec_sum_sizes(pairs_view(entries@.take(i as int))),
        decreases entries@.len() - i,
    {
        proof {
            assert(pairs_view(entries@.take(i + 1)).drop_last() =~= pairs_view(
                entries@.take(i as int),
            ));
            assert(pairs_view(entries@.take(i + 1)).last() == (entries@[i as int].0@, entries@[
                i as int].1));
        }
        sum = sat_add(sum, entries[i].1);
        i = i + 1;
    }
    proof {
        assert(entries@.take(entries@.len() as int) =~= entries@);
    }
    sum
}

/// Whether the pre-scan learned a size for this URL.
pub fn size_known_for(entries: &Vec<(String, u64)>, url: &str) -> (r: bool)
    ensures
        r == exists|i: int|
            0 <= i < entries@.len() && (#[trigger] entries@[i].0)@ == url@,
{
    let mut i: usize = 0;
    while i < entries.len()
        invariant
            i <= entries@.len(),
            forall|k: int| 0 <= k < i ==> (#[trigger] entries@[k].0)@ != url@,
        decreases entries@.len() - i,
    {
        if crate::text::str_eq(entries[i].0.as_str(), url) {
            return true;
        }
        i = i + 1;
    }
    false
}

} // verus!

//! The status listing: how the files of the output directory are classified
//! and summed into the overview the host prints.

use vstd::prelude::*;
use crate::counters::sat_add_u64;
use crate::names::{spec_ends_with, str_ends_with};
use crate::state::{DownloadState, wf_state, spec_downloaded, downloaded_bytes};
use crate::text::{str_eq, str_to_chars, chars_to_string, sub_chars};

verus! {

/// What a name in the output directory is.
#[derive(Clone, Copy, Debug, PartialEq, Eq, Structural)]
pub enum EntryKind {
    /// A resume record (`*.part.json`): an active download.
    StateRecord,
    /// A staging slab (`*.part`): bytes counted through its record, not here.
    Slab,
    /// A committed download.
    Regular,
    /// Bookkeeping noise the listing skips.
    Ignored,
}

pub fn classify_entry(filename: &str) -> (r: EntryKind)
    ensures
        spec_ends_with(filename@, ".part.json"@) ==> r == EntryKind::StateRecord,
        !spec_ends_with(filename@, ".part.json"@) && spec_ends_with(filename@, ".part"@) ==> r
            == EntryKind::Slab,
        !spec_ends_with(filename@, ".part.json"@) && !spec_ends_with(filename@, ".part"@)
            && filename@ == ".DS_Store"@ ==> r == EntryKind::Ignored,
        !spec_ends_with(filename@, ".part.json"@) && !spec_ends_with(filename@, ".part"@)
            && filename@ != ".DS_Store"@ ==> r == EntryKind::Regular,
{
    if str_ends_with(filename, ".part.json") {
        EntryKind::StateRecord
    } else if str_ends_with(filename, ".part") {
        EntryKind::Slab
    } else if str_eq(filename, ".DS_Store") {
        EntryKind::Ignored
    } else {
        EntryKind::Regular
    }
}

/// The display name behind a resume record: the record's name with its tag
/// removed.
pub fn strip_suffix(s: &str, suffix: &str) -> (r: Option<String>)
    ensures
        match r {
            Some(p) => s@ == p@ + suffix@,
            None => !spec_ends_with(s@, suffix@),
        },
{
    if !str_ends_with(s, suffix) {
        return None;
    }
    let sv = str_to_chars(s);
    let tv = str_to_chars(suffix);
    let cut = sv.len() - tv.len();
    let head = sub_chars(&sv, 0, cut);
    proof {
        assert(s@ =~= head@ + suffix@);
    }
    Some(chars_to_string(&head))
}

/// The overview's accumulators.
#[derive(Clone, Copy, Debug, PartialEq, Eq, Structural)]
pub struct ListSummary {
    pub downloaded_files: usize,
    pub active_files: usize,
    pub total_downloaded: u64,
    pub total_known: u64,
}

impl ListSummary {
    pub fn new() -> (r: ListSummary)
        ensures
            r.downloaded_files == 0,
            r.active_files == 0,
            r.total_downloaded == 0,
            r.total_known == 0,
    {
        ListSummary { downloaded_files: 0, active_files: 0, total_downloaded: 0, total_known: 0 }
    }

    /// Books one resume record: an active download whose landed bytes and
    /// total both enter the overview.
    pub fn add_state(&mut self, st: &DownloadState)
        requires
            wf_state(*st),
        ensures
            final(self).active_files >= old(self).active_files,
            old(self).active_files < usize::MAX ==> final(self).active_files == old(
                self,
            ).active_files + 1,
            final(self).total_downloaded == sat_add_u64(
                old(self).total_downloaded as int,
                spec_downloaded(*st),
            ),
            final(self).total_known == sat_add_u64(
                old(self).total_known as int,
                st.total_size as int,
            ),
            final(self).downloaded_files == old(self).downloaded_files,
    {
        if self.active_files < usize::MAX {
            self.active_files = self.active_files + 1;
        }
        let d = downloaded_bytes(st);
        if d > u64::MAX - self.total_downloaded {
            self.total_downloaded = u64::MAX;
        } else {
            self.total_downloaded = self.total_downloaded + d;
        }
        if st.total_size > u64::MAX - self.total_known {
            self.total_known = u64::MAX;
        } else {
            self.total_known = self.total_known + st.total_size;
        }
    }

    /// Books one committed file of `size` bytes.
    pub fn add_regular(&mut self, size: u64)
        ensures
            final(self).downloaded_files >= old(self).downloaded_files,
            old(self).downloaded_files < usize::MAX ==> final(self).downloaded_files == old(
                self,
            ).downloaded_files + 1,
            final(self).total_downloaded == sat_add_u64(
                old(self).total_downloaded as int,
                size as int,
            ),
            final(self).total_known == sat_add_u64(old(self).total_known as int, size as int),
            final(self).active_files == old(self).active_files,
    {
        if self.downloaded_files < usize::MAX {
            self.downloaded_files = self.downloaded_files + 1;
        }
        if size > u64::MAX - self.total_downloaded {
            self.total_downloaded = u64::MAX;
        } else {
            self.total_downloaded = self.total_downloaded + size;
        }
        if size > u64::MAX - self.total_known {
            self.total_known = u64::MAX;
        } else {
            self.total_known = self.total_known + size;
        }
    }
}

/// Progress in hundredths of a percent, as the listing displays it.
pub fn progress_permyriad(downloaded: u64, total: u64) -> (r: u64)
    requires
        downloaded <= total,
    ensures
        total > 0 ==> r == downloaded as int * 10000 / total as int,
        total == 0 ==> r == 0,
        r <= 10000,
{
    if total == 0 {
        return 0;
    }
    let scaled: u128 = (downloaded as u128) * 10000;
    let ratio: u128 = scaled / (total as u128);
    proof {
        assert(downloaded as int * 10000 / total as int <= 10000) by (nonlinear_arith)
            requires
                0 <= downloaded <= total,
                total > 0,
        ;
    }
    ratio as u64
}

} // verus!

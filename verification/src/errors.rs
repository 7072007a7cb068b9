//! Error kinds the download engine distinguishes.

use vstd::prelude::*;

verus! {

/// Per-file failure reasons. Transport and filesystem failures leave resume
/// state behind; a hash mismatch removes both the slab and the state record;
/// a missing hash under mandatory verification is fatal before any download.
#[derive(Clone, Copy, Debug, PartialEq, Eq, Structural)]
pub enum DlError {
    /// The URL has no scheme/authority prefix the engine understands.
    InvalidUrl,
    /// A ranged request was answered with a full-entity response.
    RangeNotHonored,
    /// The transport delivered fewer bytes than the requested range.
    ShortStream,
    /// A chunk would run past the end of its segment.
    OverlongStream,
    /// Verification is mandatory but the item carries no expected hash.
    MissingHash,
    /// A task-list line holds more than one separator column.
    ExtraColumn,
    /// A response status that is neither success nor a tolerated redirect.
    HttpStatus(u16),
}

impl DlError {
    /// A short diagnostic label for the host process to print.
    pub fn label(&self) -> (r: &'static str)
        ensures
            self is InvalidUrl ==> r@ == "invalid url"@,
            self is RangeNotHonored ==> r@ == "range not honored"@,
            self is ShortStream ==> r@ == "stream ended early"@,
            self is OverlongStream ==> r@ == "stream overran segment"@,
            self is MissingHash ==> r@ == "missing expected hash"@,
            self is ExtraColumn ==> r@ == "unrecognized trailing column"@,
            self is HttpStatus ==> r@ == "http error status"@,
    {
        match self {
            DlError::InvalidUrl => "invalid url",
            DlError::RangeNotHonored => "range not honored",
            DlError::ShortStream => "stream ended early",
            DlError::OverlongStream => "stream overran segment",
            DlError::MissingHash => "missing expected hash",
            DlError::ExtraColumn => "unrecognized trailing column",
            DlError::HttpStatus(_) => "http error status",
        }
    }
}

} // verus!

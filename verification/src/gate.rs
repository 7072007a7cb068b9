//! The verification gate: what happens to a fully downloaded slab before it
//! may be committed to its final name.

use vstd::prelude::*;
use crate::text::chars_eq_ci;

verus! {

/// Hash verification policy: `Off` skips hashing, `On` requires a hash for
/// every item, `Auto` hashes whenever a hash is supplied.
#[derive(Clone, Copy, Debug, PartialEq, Eq, Structural)]
pub enum VerifyMode {
    Auto,
    On,
    Off,
}

/// What the engine does once every segment of a file has completed.
#[derive(Clone, Copy, Debug, PartialEq, Eq, Structural)]
pub enum GateAction {
    /// Rename the slab to its final name without hashing.
    CommitNow,
    /// Stream the slab through the hasher and compare against the expected
    /// digest.
    HashAndCompare,
    /// Fail the file: verification is mandatory but no hash was supplied.
    Fatal,
}

/// The decision for a finished slab: it depends on the verification mode and
/// on whether an expected hash is present.
pub open spec fn spec_gate_action(mode: VerifyMode, has_expected: bool) -> GateAction {
    match mode {
        VerifyMode::Off => GateAction::CommitNow,
        VerifyMode::On => if has_expected {
            GateAction::HashAndCompare
        } else {
            GateAction::Fatal
        },
        VerifyMode::Auto => if has_expected {
            GateAction::HashAndCompare
        } else {
            GateAction::CommitNow
        },
    }
}

pub fn gate_action(mode: VerifyMode, has_expected: bool) -> (r: GateAction)
    ensures
        r == spec_gate_action(mode, has_expected),
{
    match mode {
        VerifyMode::Off => GateAction::CommitNow,
        VerifyMode::On => if has_expected {
            GateAction::HashAndCompare
        } else {
            GateAction::Fatal
        },
        VerifyMode::Auto => if has_expected {
            GateAction::HashAndCompare
        } else {
            GateAction::CommitNow
        },
    }
}

/// The outcome of comparing the computed digest against the expected one.
#[derive(Clone, Copy, Debug, PartialEq, Eq, Structural)]
pub enum HashVerdict {
    /// The digests match: rename the slab to its final name and delete the
    /// state record.
    Commit,
    /// The digests differ: the bytes are corrupt, so delete the slab, and the
    /// offsets may be misaligned with an upstream change, so delete the state
    /// record as well.
    RejectCorrupt,
}

/// Digest comparison is case-insensitive over the hex characters.
pub fn hash_verdict(expected: &str, computed: &str) -> (r: HashVerdict)
    ensures
        r == HashVerdict::Commit <==> chars_eq_ci(expected@, computed@),
        r == HashVerdict::Commit || r == HashVerdict::RejectCorrupt,
{
    if crate::text::eq_ignore_ascii_case(expected, computed) {
        HashVerdict::Commit
    } else {
        HashVerdict::RejectCorrupt
    }
}

/// The hash gate: a matching hash under `On` or `Auto` commits the file; a
/// wrong hash removes both the slab and the state record; `Off` commits
/// without looking at the digest; `On` without a hash is fatal.
pub proof fn lemma_hash_gate(mode: VerifyMode, has_expected: bool)
    ensures
        mode == VerifyMode::Off ==> spec_gate_action(mode, has_expected) == GateAction::CommitNow,
        mode != VerifyMode::Off && has_expected ==> spec_gate_action(mode, has_expected)
            == GateAction::HashAndCompare,
        mode == VerifyMode::On && !has_expected ==> spec_gate_action(mode, has_expected)
            == GateAction::Fatal,
        mode == VerifyMode::Auto && !has_expected ==> spec_gate_action(mode, has_expected)
            == GateAction::CommitNow,
{
}

} // verus!

//! The evidence tier of a recovered artifact.

use vstd::prelude::*;

verus! {

/// Evidence tier of a recovered artifact, ordered weakest to strongest. The
/// tier is fixed by how the artifact was obtained.
#[derive(Clone, Copy, Debug, PartialEq, Eq, Ord, Hash, Structural)]
pub enum Confidence {
    /// Medium bytes decoded inside a header this tool supplied: the one
    /// tier whose artifact is not a file the medium ever held.
    Grafted,
    /// A fragment or embedded thumbnail; the parent was not recovered.
    PartialOrThumbnail,
    /// Reassembled from non-contiguous fragments by carving.
    Reassembled,
    /// Carved as one contiguous, fully validated run.
    ContiguousCarve,
    /// Extents recovered from stale filesystem journal copies.
    JournalResidue,
    /// Extents taken from live or residual filesystem metadata.
    FsMetadata,
}

/// The rank of a tier on the ladder, weakest first.
pub open spec fn tier(c: Confidence) -> nat {
    match c {
        Confidence::Grafted => 0,
        Confidence::PartialOrThumbnail => 1,
        Confidence::Reassembled => 2,
        Confidence::ContiguousCarve => 3,
        Confidence::JournalResidue => 4,
        Confidence::FsMetadata => 5,
    }
}

/// The name a tier is reported by.
pub open spec fn confidence_name(c: Confidence) -> &'static str {
    match c {
        Confidence::Grafted => "grafted",
        Confidence::PartialOrThumbnail => "partial-or-thumbnail",
        Confidence::Reassembled => "reassembled",
        Confidence::ContiguousCarve => "contiguous-carve",
        Confidence::JournalResidue => "journal-residue",
        Confidence::FsMetadata => "fs-metadata",
    }
}

impl Confidence {
    /// The tier's rank, weakest first.
    pub fn rank(self) -> (r: u8)
        ensures
            r == tier(self),
    {
        match self {
            Confidence::Grafted => 0,
            Confidence::PartialOrThumbnail => 1,
            Confidence::Reassembled => 2,
            Confidence::ContiguousCarve => 3,
            Confidence::JournalResidue => 4,
            Confidence::FsMetadata => 5,
        }
    }

    /// The tier's name in reports.
    pub fn name(self) -> (r: &'static str)
        ensures
            r@ == confidence_name(self)@,
    {
        match self {
            Confidence::Grafted => "grafted",
            Confidence::PartialOrThumbnail => "partial-or-thumbnail",
            Confidence::Reassembled => "reassembled",
            Confidence::ContiguousCarve => "contiguous-carve",
            Confidence::JournalResidue => "journal-residue",
            Confidence::FsMetadata => "fs-metadata",
        }
    }
}

impl PartialOrd for Confidence {
    fn partial_cmp(&self, other: &Confidence) -> (r: Option<core::cmp::Ordering>) {
        let a = self.rank();
        let b = other.rank();
        if a < b {
            Some(core::cmp::Ordering::Less)
        } else if a > b {
            Some(core::cmp::Ordering::Greater)
        } else {
            Some(core::cmp::Ordering::Equal)
        }
    }
}

impl vstd::std_specs::cmp::PartialOrdSpecImpl for Confidence {
    open spec fn obeys_partial_cmp_spec() -> bool {
        true
    }

    open spec fn partial_cmp_spec(&self, other: &Confidence) -> Option<core::cmp::Ordering> {
        if tier(*self) < tier(*other) {
            Some(core::cmp::Ordering::Less)
        } else if tier(*self) > tier(*other) {
            Some(core::cmp::Ordering::Greater)
        } else {
            Some(core::cmp::Ordering::Equal)
        }
    }
}

/// The ladder: every tier is stronger than the ones declared before it, and
/// metadata evidence is above every carving tier.
pub proof fn lemma_confidence_ladder()
    ensures
        tier(Confidence::Grafted) < tier(Confidence::PartialOrThumbnail),
        tier(Confidence::PartialOrThumbnail) < tier(Confidence::Reassembled),
        tier(Confidence::Reassembled) < tier(Confidence::ContiguousCarve),
        tier(Confidence::ContiguousCarve) < tier(Confidence::JournalResidue),
        tier(Confidence::JournalResidue) < tier(Confidence::FsMetadata),
        forall|c: Confidence| #[trigger] tier(c) <= tier(Confidence::FsMetadata),
        forall|a: Confidence, b: Confidence| #[trigger] tier(a) == #[trigger] tier(b) ==> a == b,
{
}

} // verus!

//! The data carried across the library boundary: completed match records
//! and the single error kind.

use vstd::prelude::*;

verus! {

/// The single error kind: the input violated a documented constraint
/// (non-binary allele value, length mismatch, zero haplotype or site count,
/// out-of-range target site, or zero minimum match length).
#[derive(Debug, Clone, Copy, PartialEq, Eq, Structural)]
pub enum PbwtError {
    InvalidInput,
}

/// A completed long match: the haplotypes that were contiguous in prefix
/// order and mutually identical over an interval of at least the minimum
/// length ending at site `end`, split by their allele value at `end`.
#[derive(Debug, Clone, PartialEq, Eq)]
pub struct Match {
    /// Members carrying allele 0 at the end site, in prefix order.
    pub haplo_a: Vec<usize>,
    /// Members carrying allele 1 at the end site, in prefix order.
    pub haplo_b: Vec<usize>,
    /// The site index at which the group is about to diverge.
    pub end: usize,
}

/// The mathematical form of a [`Match`].
#[verifier::ext_equal]
pub struct SpecMatch {
    pub haplo_a: Seq<usize>,
    pub haplo_b: Seq<usize>,
    pub end: usize,
}

impl View for Match {
    type V = SpecMatch;

    open spec fn view(&self) -> SpecMatch {
        SpecMatch { haplo_a: self.haplo_a@, haplo_b: self.haplo_b@, end: self.end }
    }
}

} // verus!

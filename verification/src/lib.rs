//! Positional Burrows-Wheeler Transform (PBWT) construction.
//!
//! Given a matrix of biallelic haplotypes over an ordered list of sites,
//! the library builds, site by site, the positional prefix array (a
//! permutation grouping haplotypes with identical recent history) together
//! with the divergence array (how far back each adjacent pair's shared
//! history extends), and enumerates maximal runs of haplotypes that are
//! identical over an interval of at least a minimum length.

pub mod laws;
pub mod model;
pub mod step;
pub mod sweep;
pub mod types;

pub use step::find_long_matches;
pub use step::step;
pub use sweep::find_all_long_matches;
pub use sweep::initialize;
pub use types::Match;
pub use types::PbwtError;

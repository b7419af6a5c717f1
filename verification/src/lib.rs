//! A probabilistic set-membership filter for a key-value storage engine.
//!
//! A `FilterBitsBuilderWrapper` accumulates 64-bit key fingerprints and
//! `finish` serializes them into a compact filter block, using either a
//! cache-local Bloom filter or a ribbon filter (a static function built by
//! solving a banded linear system over GF(2)).  A `FilterBitsReaderWrapper`
//! parses such a block and answers "might this key be present?" with no
//! false negatives and a bounded false-positive rate.
use vstd::prelude::*;

pub mod bits;
pub mod bloom;
pub mod codec;
pub mod filter;
pub mod hash;
pub mod ribbon;

pub use filter::FilterBitsBuilderWrapper;
pub use filter::FilterBitsReaderWrapper;
pub use filter::FilterError;
pub use filter::FilterType;

verus! {

} // verus!

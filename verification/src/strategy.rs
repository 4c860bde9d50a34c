//! The capability that every bucketing strategy offers.

use vstd::prelude::*;

verus! {

/// No boundary is smaller than one that stands before it.
pub open spec fn ascending(boundaries: Seq<u64>) -> bool {
    forall|i: int, j: int| 0 <= i <= j < boundaries.len() ==> boundaries[i] <= boundaries[j]
}

/// A bucketing algorithm for histograms.
///
/// It is responsible for working out the bucket that a sample goes into, and
/// names the bucket by its minimum. It can work the buckets out on the fly,
/// or keep a table of them and look each sample up.
pub trait Bucketing {
    /// Whether the algorithm keeps a table of precomputed ranges. Unless an
    /// algorithm says otherwise, it keeps none.
    open spec fn keeps_table(&self) -> bool {
        false
    }

    /// Get the bucket's minimum value the sample falls into.
    ///
    /// Zero falls into the bucket whose minimum is zero.
    fn sample_to_bucket_minimum(&self, sample: u64) -> (minimum: u64)
        ensures
            sample == 0 ==> minimum == 0,
    ;

    /// The precomputed bucket ranges of this bucketing algorithm: the minimum
    /// of every bucket, in ascending order.
    ///
    /// An algorithm that keeps no table has nothing to hand out and does not
    /// return from this call.
    fn ranges(&self) -> (table: &[u64])
        requires
            self.keeps_table(),
        ensures
            ascending(table@),
    ;
}

} // verus!

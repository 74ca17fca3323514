use vstd::prelude::*;

verus! {

/// The metric that measures the distance from a query point to a feature point.
///
/// Only this name is stored or compared; the function it stands for is resolved
/// from it where distances are computed.
#[derive(Debug, Clone, Copy, PartialEq, Eq, Structural)]
pub enum DistanceFn {
    Euclidean,
    EuclideanSquared,
    Manhattan,
    Chebyshev,
    /// The mean of the Euclidean and the Manhattan distance.
    Hybrid,
}

} // verus!

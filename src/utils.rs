use vstd::prelude::*;

verus! {

/// The value that std's `DefaultHasher` gives for the tuple `(seed, x, z)`.
pub uninterp spec fn default_hash_of(seed: u64, x: i32, z: i32) -> u64;

/// Relies on std's `DefaultHasher`: one made by `DefaultHasher::new` always starts
/// from the same keys, so hashing `(seed, x, z)` and finishing depends on these
/// values alone.
#[verifier::external_body]
fn default_hash(seed: u64, x: i32, z: i32) -> (r: u64)
    ensures
        r == default_hash_of(seed, x, z),
{
    let mut hasher = std::hash::DefaultHasher::new();
    std::hash::Hash::hash(&(seed, x, z), &mut hasher);
    std::hash::Hasher::finish(&hasher)
}

/// Hashes a seed and an integer cell position to 64 bits.
///
/// Equal inputs give equal outputs; this is the source of all determinism in
/// the field.
pub fn hash_u64(seed: u64, x: i32, z: i32) -> (r: u64)
    ensures
        r == default_hash_of(seed, x, z),
{
    default_hash(seed, x, z)
}

} // verus!

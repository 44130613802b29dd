use vstd::prelude::*;
use rand::distributions::Alphanumeric;
use rand::{Rng, SeedableRng};

verus! {

/// Whether `c` is an ASCII letter or digit.
pub open spec fn is_alphanumeric(c: char) -> bool {
    ('A' <= c && c <= 'Z') || ('a' <= c && c <= 'z') || ('0' <= c && c <= '9')
}

/// The glyph that a generator seeded with `seed` draws first from the
/// alphanumeric characters.
pub uninterp spec fn alphanumeric_from_seed(seed: u64) -> char;

/// Relies on `rand::thread_rng` and `Rng::gen_range`: a value drawn from the
/// half-open range `lo..hi`, which must not be empty (`gen_range` panics on an
/// empty range).
#[verifier::external_body]
pub(crate) fn random_in_range(lo: u32, hi: u32) -> (r: u32)
    requires
        lo < hi,
    ensures
        lo <= r < hi,
{
    rand::thread_rng().gen_range(lo..hi)
}

/// Relies on `StdRng::seed_from_u64` followed by one sample of
/// `rand::distributions::Alphanumeric`: the generator is deterministic for a
/// given seed, and the sample is one of `A-Z`, `a-z`, `0-9`.
#[verifier::external_body]
pub(crate) fn seeded_alphanumeric(seed: u64) -> (c: char)
    ensures
        c == alphanumeric_from_seed(seed),
        is_alphanumeric(c),
{
    char::from(rand::rngs::StdRng::seed_from_u64(seed).sample(Alphanumeric))
}

} // verus!

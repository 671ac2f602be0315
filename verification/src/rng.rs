use vstd::prelude::*;
use rand::Rng;

verus! {

/// Relies on rand::thread_rng and rand::Rng::gen_range over a half-open
/// integer range: the sample lies in [lo, hi). gen_range panics on an empty
/// range, which the precondition rules out. Nothing more is assumed of the
/// sample; every caller must hold for every value in the range.
#[verifier::external_body]
pub(crate) fn random_in_range(lo: i64, hi: i64) -> (r: i64)
    requires
        lo < hi,
    ensures
        lo <= r < hi,
{
    rand::thread_rng().gen_range(lo..hi)
}

} // verus!

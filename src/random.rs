//! The randomness the engine draws on: one explicit, seedable generator,
//! handed to every operation that makes a random choice.
use rand::rngs::StdRng;
use rand::Rng;
use vstd::prelude::*;

verus! {

/// rand's standard seedable generator, carried through the engine as an
/// opaque value.
#[verifier::external_type_specification]
#[verifier::external_body]
pub struct ExStdRng(StdRng);

/// Relies on rand's `Rng::gen_range` over `0..n`: a value below `n`.
/// It panics on an empty range, which `requires` leaves out.
#[verifier::external_body]
pub(crate) fn gen_index(rng: &mut StdRng, n: usize) -> (r: usize)
    requires
        0 < n,
    ensures
        r < n,
{
    rng.gen_range(0..n)
}

/// Relies on rand's `Rng::gen_ratio`: true with probability `num / den`,
/// never true when `num` is 0 and always true when `num == den`.
/// It panics when `den` is 0 or `num > den`, which `requires` leaves out.
#[verifier::external_body]
pub(crate) fn gen_ratio(rng: &mut StdRng, num: u32, den: u32) -> (r: bool)
    requires
        0 < den,
        num <= den,
    ensures
        num == 0 ==> !r,
        num == den ==> r,
{
    rng.gen_ratio(num, den)
}

/// Relies on rand's `seq::index::sample`: `amount` distinct indices drawn
/// from `0..length`, in random order. It panics when `amount > length`,
/// which `requires` leaves out.
#[verifier::external_body]
pub(crate) fn sample_distinct(rng: &mut StdRng, length: usize, amount: usize) -> (r: Vec<usize>)
    requires
        amount <= length,
    ensures
        r@.len() == amount,
        forall|i: int| 0 <= i < r@.len() ==> #[trigger] r@[i] < length,
        forall|i: int, j: int| 0 <= i < j < r@.len() ==> r@[i] != r@[j],
{
    rand::seq::index::sample(rng, length, amount).into_vec()
}

} // verus!

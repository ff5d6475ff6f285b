use vstd::prelude::*;
use rand::Rng;
use rand::seq::SliceRandom;
use rand_pcg::Lcg128Xsl64;
use crate::position::Position;

verus! {

/// The generator behind the game's random numbers (`rand_pcg::Pcg64`).
#[verifier::external_type_specification]
#[verifier::external_body]
pub struct ExLcg128Xsl64(Lcg128Xsl64);

/// `rand::Rng::gen_range` over `low..high` on the game's generator: some value in the
/// range, which it requires to be non-empty (it panics on an empty one). Which value
/// comes out depends on the generator's state, so the contract says only where it lies.
#[verifier::external_body]
pub(crate) fn gen_range_i32(rng: &mut Lcg128Xsl64, low: i32, high: i32) -> (r: i32)
    requires
        low < high,
    ensures
        low <= r < high,
{
    rng.gen_range(low..high)
}

/// `rand::seq::SliceRandom::choose` on a list of positions: `None` for an empty list,
/// otherwise one of its elements. Which element comes out depends on the generator's
/// state, so the contract says only that it is one of them.
#[verifier::external_body]
pub(crate) fn choose_position(options: &Vec<Position>, rng: &mut Lcg128Xsl64) -> (r: Option<Position>)
    ensures
        match r {
            None => options@.len() == 0,
            Some(p) => options@.contains(p),
        },
{
    options.as_slice().choose(rng).copied()
}

} // verus!

//! Wrappers around the random-number generator. The spawn logic draws a sex
//! and a name index through these; everything that follows a draw is verified
//! for every value the draw can take.
use vstd::prelude::*;
use rand::Rng;

verus! {

/// Relies on rand::random with the standard distribution on `bool`: it draws
/// `true` or `false` with equal probability. Nothing is promised of the
/// outcome; callers must hold for either value.
#[verifier::external_body]
pub(crate) fn tirage_pile_ou_face() -> bool {
    rand::random::<bool>()
}

/// Relies on rand::thread_rng and rand::Rng::gen_range on `0..borne`: the
/// documentation promises a value drawn from the half-open range, so the
/// result is below the bound. The call panics on an empty range, which the
/// precondition rules out.
#[verifier::external_body]
pub(crate) fn tirage_indice(borne: usize) -> (r: usize)
    requires
        borne > 0,
    ensures
        r < borne,
{
    rand::thread_rng().gen_range(0..borne)
}

} // verus!

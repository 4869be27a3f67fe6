use rand::seq::SliceRandom;
use rand::Rng;
use vstd::prelude::*;

use crate::quiz::{answer_views, same_options, Answer};

verus! {

/// Relies on rand's `thread_rng().gen_range`: on a non-empty range it returns
/// a value inside it (it panics on an empty one).
#[verifier::external_body]
pub(crate) fn random_below(n: usize) -> (r: usize)
    requires
        n > 0,
    ensures
        r < n,
{
    rand::thread_rng().gen_range(0..n)
}

/// Relies on `rand::random::<bool>`: a fair coin; nothing is promised of it.
#[verifier::external_body]
pub(crate) fn random_flag() -> (r: bool) {
    rand::random::<bool>()
}

/// Relies on rand's `SliceRandom::shuffle`: it reorders the slice in place,
/// keeping every element.
#[verifier::external_body]
pub(crate) fn shuffle_answers(v: &mut Vec<Answer>)
    ensures
        same_options(answer_views(final(v)@), answer_views(old(v)@)),
{
    v.shuffle(&mut rand::thread_rng())
}

} // verus!

//! Coin tosses from the thread's random number generator.

use rand::Rng;
use vstd::prelude::*;

verus! {

/// One toss of a fair coin, `rand::thread_rng().gen::<bool>()`. The outcome
/// is a matter of chance, so nothing is claimed of it: two tosses may differ.
#[verifier::external_body]
fn toss() -> bool {
    rand::thread_rng().gen()
}

/// Tosses the coin `count` times and returns the outcomes in the order in
/// which they came.
pub fn tosses(count: usize) -> (draws: Vec<bool>)
    ensures
        draws@.len() == count,
{
    let mut draws: Vec<bool> = Vec::new();
    let mut i: usize = 0;
    while i < count
        invariant
            i <= count,
            draws@.len() == i,
        decreases count - i,
    {
        draws.push(toss());
        i = i + 1;
    }
    draws
}

} // verus!

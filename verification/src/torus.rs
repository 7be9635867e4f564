//! Coordinates on a ring: every integer names one of `range` positions, and
//! walking off one end comes back in at the other.

use vstd::arithmetic::div_mod::{
    lemma_add_mod_noop,
    lemma_fundamental_div_mod,
    lemma_fundamental_div_mod_converse,
    lemma_mod_add_multiples_vanish,
    lemma_mod_bound,
    lemma_small_mod,
};
use vstd::prelude::*;

verus! {

/// The position on a ring of `range` places that the coordinate `coord`
/// names: the remainder of `coord` that lies in `0..range`. So `-1` names the
/// last place and `range` names the first.
pub open spec fn wrapped(coord: int, range: int) -> int {
    coord % range
}

/// A wrapped coordinate lies on the ring.
pub proof fn lemma_wrapped_in_range(coord: int, range: int)
    requires
        0 < range,
    ensures
        0 <= wrapped(coord, range) < range,
{
    lemma_mod_bound(coord, range);
}

/// A coordinate that already lies on the ring names itself.
pub proof fn lemma_wrapped_identity(coord: int, range: int)
    requires
        0 <= coord < range,
    ensures
        wrapped(coord, range) == coord,
{
    lemma_small_mod(coord as nat, range as nat);
}

/// Going once round the ring changes nothing.
pub proof fn lemma_wrapped_period(coord: int, range: int)
    requires
        0 < range,
    ensures
        wrapped(coord + range, range) == wrapped(coord, range),
{
    lemma_mod_add_multiples_vanish(coord, range);
}

/// A step taken from a coordinate ends where the same step ends when taken
/// from the place that the coordinate names.
pub proof fn lemma_wrapped_step(coord: int, step: int, range: int)
    requires
        0 < range,
    ensures
        wrapped(wrapped(coord, range) + step, range) == wrapped(coord + step, range),
{
    lemma_add_mod_noop(coord, step, range);
    lemma_add_mod_noop(coord % range, step, range);
    lemma_mod_bound(coord, range);
    lemma_small_mod((coord % range) as nat, range as nat);
}

/// One step back on the ring, from a place on it.
pub proof fn lemma_wrapped_pred(place: int, range: int)
    requires
        0 <= place < range,
    ensures
        wrapped(place - 1, range) == if place == 0 {
            range - 1
        } else {
            place - 1
        },
        wrapped(place - 1, range) == (place + range - 1) % range,
{
    if place == 0 {
        lemma_fundamental_div_mod_converse(-1, range, -1, range - 1);
        lemma_small_mod((range - 1) as nat, range as nat);
    } else {
        lemma_small_mod((place - 1) as nat, range as nat);
        lemma_fundamental_div_mod_converse(place + range - 1, range, 1, place - 1);
    }
}

/// Wraps a signed coordinate onto a ring of `range` places.
pub fn wrap(coord: isize, range: isize) -> (place: usize)
    requires
        0 < range,
    ensures
        place == wrapped(coord as int, range as int),
        place < range,
{
    proof {
        lemma_mod_bound(coord as int, range as int);
    }
    if coord < 0 {
        let back: isize = -(coord + 1);
        let rest: isize = back % range;
        proof {
            // coord == -(back + 1), and back == q * range + rest
            let q = (back as int) / (range as int);
            lemma_fundamental_div_mod(back as int, range as int);
            lemma_mod_bound(back as int, range as int);
            assert(coord as int == (-q - 1) * (range as int) + (range - 1 - rest))
                by (nonlinear_arith)
                requires
                    back as int == (range as int) * q + rest,
                    coord as int == -(back as int) - 1,
            ;
            lemma_fundamental_div_mod_converse(
                coord as int,
                range as int,
                -q - 1,
                range - 1 - rest,
            );
        }
        (range - 1 - rest) as usize
    } else if coord >= range {
        (coord % range) as usize
    } else {
        proof {
            lemma_small_mod(coord as nat, range as nat);
        }
        coord as usize
    }
}

} // verus!

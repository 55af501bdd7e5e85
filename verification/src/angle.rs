use vstd::prelude::*;
use crate::fixed::TAU_FX;

verus! {

/// The angle `a` wrapped into `[0, TAU_FX)`: the Euclidean remainder of a
/// division by one full turn.
pub open spec fn norm_excl_spec(a: int) -> int {
    a % (TAU_FX as int)
}

/// The angle `a` wrapped into `[0, TAU_FX]`: negative angles and angles
/// strictly above one turn wrap, while an exact `TAU_FX` endpoint (and any
/// angle already inside the closed range) is returned unchanged.
pub open spec fn norm_incl_spec(a: int) -> int {
    if 0 <= a <= TAU_FX {
        a
    } else {
        norm_excl_spec(a)
    }
}

/// Wrap an angle to the half-open `[0, TAU_FX)` range.
pub fn normalized_angle_unsigned_excl(angle: i64) -> (r: i64)
    requires
        -0x4000_0000_0000_0000 <= angle <= 0x4000_0000_0000_0000,
    ensures
        r == norm_excl_spec(angle as int),
        0 <= r < TAU_FX,
{
    proof {
        vstd::arithmetic::div_mod::lemma_mod_bound(angle as int, TAU_FX as int);
    }
    if angle >= 0 {
        angle % TAU_FX
    } else {
        let m: i64 = (-angle) % TAU_FX;
        proof {
            let aa = angle as int;
            let tt = TAU_FX as int;
            vstd::arithmetic::div_mod::lemma_fundamental_div_mod(-aa, tt);
            vstd::arithmetic::div_mod::lemma_mod_bound(-aa, tt);
            if (-aa) % tt == 0 {
                vstd::arithmetic::div_mod::lemma_fundamental_div_mod_converse(
                    aa,
                    tt,
                    -((-aa) / tt),
                    0,
                );
            } else {
                vstd::arithmetic::div_mod::lemma_fundamental_div_mod_converse(
                    aa,
                    tt,
                    -((-aa) / tt) - 1,
                    tt - (-aa) % tt,
                );
            }
        }
        if m == 0 {
            0
        } else {
            TAU_FX - m
        }
    }
}

/// Wrap an angle to the closed `[0, TAU_FX]` range, preserving an exact full
/// turn instead of collapsing it to zero.
pub fn normalized_angle_unsigned_incl(angle: i64) -> (r: i64)
    requires
        -0x4000_0000_0000_0000 <= angle <= 0x4000_0000_0000_0000,
    ensures
        r == norm_incl_spec(angle as int),
        0 <= r <= TAU_FX,
{
    if angle < 0 {
        normalized_angle_unsigned_excl(angle)
    } else if angle > TAU_FX {
        proof {
            vstd::arithmetic::div_mod::lemma_mod_bound(angle as int, TAU_FX as int);
        }
        angle % TAU_FX
    } else {
        angle
    }
}

/// The exclusive normalization always lands in `[0, TAU_FX)` and is periodic:
/// shifting the input by one full turn leaves the result unchanged.
pub proof fn lemma_norm_excl_periodic(a: int)
    ensures
        0 <= norm_excl_spec(a) < TAU_FX,
        norm_excl_spec(a + TAU_FX) == norm_excl_spec(a),
{
    vstd::arithmetic::div_mod::lemma_mod_bound(a, TAU_FX as int);
    vstd::arithmetic::div_mod::lemma_mod_multiples_vanish(1, a, TAU_FX as int);
}

/// The inclusive normalization preserves the exact full-turn endpoint, while
/// anything strictly beyond it wraps just as the exclusive form does.
pub proof fn lemma_norm_incl_endpoint(a: int)
    ensures
        norm_incl_spec(TAU_FX as int) == TAU_FX,
        a > TAU_FX ==> norm_incl_spec(a) == norm_excl_spec(a) < TAU_FX,
{
    if a > TAU_FX {
        vstd::arithmetic::div_mod::lemma_mod_bound(a, TAU_FX as int);
    }
}

} // verus!

//! The vote-weight policy: how much a vote counts, given the caller's
//! reputation and the power awarded so far.

use vstd::prelude::*;

verus! {

/// The quotient of `a` by a non-zero `b`, rounded toward zero.
pub open spec fn trunc_div(a: int, b: int) -> int {
    if a >= 0 && b > 0 {
        a / b
    } else if a < 0 && b < 0 {
        (-a) / (-b)
    } else if a < 0 {
        -((-a) / b)
    } else {
        -(a / (-b))
    }
}

/// The caller's share of the total power, in percent, rounded toward zero.
/// It is negative where exactly one of the two is, and is not clamped.
pub open spec fn share(reputation: int, total_power: int) -> int {
    trunc_div(reputation * 100, total_power)
}

/// The weight of a vote. Without any power awarded yet it is 1; otherwise it
/// goes by the tier of the caller's share.
pub open spec fn vote_weight(reputation: int, total_power: int) -> int {
    if total_power == 0 {
        1
    } else {
        let s = share(reputation, total_power);
        if s == 0 {
            1
        } else if 1 <= s <= 33 {
            10
        } else if 34 <= s <= 66 {
            20
        } else {
            30
        }
    }
}

/// Whether the share can be computed in 32 bits.
pub open spec fn weight_computable(reputation: int, total_power: int) -> bool {
    total_power != 0 ==> i32::MIN <= reputation * 100 <= i32::MAX
}

/// The weight of a vote cast by a caller of the given reputation.
pub fn weight(reputation: i32, total_power: i32) -> (power: i32)
    requires
        weight_computable(reputation as int, total_power as int),
    ensures
        power == vote_weight(reputation as int, total_power as int),
        total_power == 0 ==> power == 1,
        power == 1 || power == 10 || power == 20 || power == 30,
{
    if total_power == 0 {
        1
    } else {
        let scaled: i32 = reputation * 100;
        let s: i32 = scaled.checked_div(total_power).unwrap();
        if s == 0 {
            1
        } else if 1 <= s && s <= 33 {
            10
        } else if 34 <= s && s <= 66 {
            20
        } else {
            30
        }
    }
}

/// The share is the reputation itself where the total power is 100.
pub proof fn lemma_share_of_hundred(reputation: int)
    ensures
        share(reputation, 100) == reputation,
{
    if reputation >= 0 {
        assert((reputation * 100) / 100 == reputation);
    } else {
        assert(((-(reputation * 100)) / 100) == -reputation);
    }
}

/// Between nothing and everything: a caller whose reputation is non-negative
/// and no more than a positive total has a share from 0 to 100.
pub proof fn lemma_share_bounds(reputation: int, total_power: int)
    requires
        0 <= reputation <= total_power,
        0 < total_power,
    ensures
        0 <= share(reputation, total_power) <= 100,
{
    assert(0 <= (reputation * 100) / total_power <= 100) by (nonlinear_arith)
        requires
            0 <= reputation <= total_power,
            0 < total_power,
    ;
}

} // verus!

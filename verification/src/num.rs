//! Integer division as the language and the game rules use it: rounded
//! toward zero.

use vstd::prelude::*;

verus! {

/// The quotient of `a` by a positive `b`, rounded toward zero.
pub open spec fn div_toward_zero(a: int, b: int) -> int {
    if a >= 0 {
        a / b
    } else {
        -((-a) / b)
    }
}

/// The size of the remainder that [`div_toward_zero`] leaves.
pub open spec fn rem_size(a: int, b: int) -> int {
    if a >= 0 {
        a % b
    } else {
        (-a) % b
    }
}

/// The quotient of `a` by a positive `b`, rounded toward zero.
pub fn quotient(a: i32, b: i32) -> (q: i32)
    requires
        b > 0,
    ensures
        q == div_toward_zero(a as int, b as int),
{
    if a >= 0 {
        a / b
    } else {
        let wide: i64 = -(a as i64);
        (-(wide / (b as i64))) as i32
    }
}

/// The size of the remainder of `a` by a positive `b`.
pub fn remainder_size(a: i32, b: i32) -> (r: i32)
    requires
        b > 0,
    ensures
        r == rem_size(a as int, b as int),
{
    if a >= 0 {
        a % b
    } else {
        let wide: i64 = -(a as i64);
        (wide % (b as i64)) as i32
    }
}

} // verus!

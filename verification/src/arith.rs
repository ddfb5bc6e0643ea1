use vstd::prelude::*;

verus! {

/// The 64-bit integer nearest to `x`.
pub open spec fn clamp(x: int) -> i64 {
    if x > i64::MAX {
        i64::MAX
    } else if x < i64::MIN {
        i64::MIN
    } else {
        x as i64
    }
}

/// Addition that stops at the bounds of `i64`.
pub fn saturating_add(x: i64, y: i64) -> (r: i64)
    ensures
        r == clamp(x + y),
{
    match x.checked_add(y) {
        Some(sum) => sum,
        None => if y > 0 {
            i64::MAX
        } else {
            i64::MIN
        },
    }
}

/// Subtraction that stops at the bounds of `i64`.
pub fn saturating_sub(x: i64, y: i64) -> (r: i64)
    ensures
        r == clamp(x - y),
{
    match x.checked_sub(y) {
        Some(difference) => difference,
        None => if y < 0 {
            i64::MAX
        } else {
            i64::MIN
        },
    }
}

/// Multiplication that stops at the bounds of `i64`.
pub fn saturating_mul(x: i64, y: i64) -> (r: i64)
    ensures
        r == clamp(x * y),
{
    match x.checked_mul(y) {
        Some(product) => product,
        None => {
            assert((x < 0) == (y < 0) ==> x * y >= 0) by (nonlinear_arith);
            assert((x < 0) != (y < 0) ==> x * y <= 0) by (nonlinear_arith);
            if (x < 0) == (y < 0) {
                i64::MAX
            } else {
                i64::MIN
            }
        },
    }
}

} // verus!

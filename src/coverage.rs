//! Small arithmetic functions.
use vstd::prelude::*;

verus! {

/// Twice a positive argument; zero otherwise.
pub fn covered_function(x: i32) -> (r: i32)
    requires
        x <= i32::MAX / 2,
    ensures
        r == if x > 0 { 2 * x } else { 0 },
{
    if x > 0 {
        x * 2
    } else {
        0
    }
}

/// Three times an argument above ten; the successor otherwise.
pub fn uncovered_function(x: i32) -> (r: i32)
    requires
        x <= i32::MAX / 3,
    ensures
        r == if x > 10 { 3 * x } else { x + 1 },
{
    if x > 10 {
        x * 3
    } else {
        x + 1
    }
}

/// A hundred times the argument.
pub fn excluded_nightly_function(x: i32) -> (r: i32)
    requires
        -21474836 <= x <= 21474836,
    ensures
        r == 100 * x,
{
    assert(-2147483648 <= 100 * x <= 2147483647) by (nonlinear_arith)
        requires
            -21474836 <= x <= 21474836,
    ;
    x * 100
}

/// Two hundred times the argument.
pub fn excluded_stable_function(x: i32) -> (r: i32)
    requires
        -10737418 <= x <= 10737418,
    ensures
        r == 200 * x,
{
    assert(-2147483648 <= 200 * x <= 2147483647) by (nonlinear_arith)
        requires
            -10737418 <= x <= 10737418,
    ;
    x * 200
}

/// Two hundred times the argument, through `excluded_stable_function`.
pub fn call_excluded_stable_function(x: i32) -> (r: i32)
    requires
        -10737418 <= x <= 10737418,
    ensures
        r == 200 * x,
{
    excluded_stable_function(x)
}

} // verus!

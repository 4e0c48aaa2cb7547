//! Ordering comparisons between values.

use vstd::prelude::*;

use std::cmp::Ordering;

use crate::ast::{Cmp, comparison_holds};
use crate::value::{SValue, Value};

verus! {

/// The order of two booleans: `false` before `true`.
pub open spec fn bool_order(a: bool, b: bool) -> Ordering {
    if a == b {
        Ordering::Equal
    } else if !a {
        Ordering::Less
    } else {
        Ordering::Greater
    }
}

/// The order of two integers.
pub open spec fn int_order(a: i32, b: i32) -> Ordering {
    if a < b {
        Ordering::Less
    } else if a == b {
        Ordering::Equal
    } else {
        Ordering::Greater
    }
}

/// Whether the comparison `c` holds between two values: units are equal,
/// booleans and integers compare by their order, and any other pair
/// compares as false.
pub open spec fn compare_cells(c: Cmp, a: SValue, b: SValue) -> bool {
    match (a, b) {
        (SValue::Unit, SValue::Unit) => comparison_holds(c, Ordering::Equal),
        (SValue::Bool(x), SValue::Bool(y)) => comparison_holds(c, bool_order(x, y)),
        (SValue::Integer(x), SValue::Integer(y)) => comparison_holds(c, int_order(x, y)),
        _ => false,
    }
}

fn order_of_bools(a: bool, b: bool) -> (r: Ordering)
    ensures
        r == bool_order(a, b),
{
    if a == b {
        Ordering::Equal
    } else if !a {
        Ordering::Less
    } else {
        Ordering::Greater
    }
}

fn order_of_ints(a: i32, b: i32) -> (r: Ordering)
    ensures
        r == int_order(a, b),
{
    if a < b {
        Ordering::Less
    } else if a == b {
        Ordering::Equal
    } else {
        Ordering::Greater
    }
}

/// Whether the comparison `c` holds between the values `a` and `b`.
pub fn compare_values(c: Cmp, a: &Value, b: &Value) -> (r: bool)
    ensures
        r == compare_cells(c, a@, b@),
{
    match (a, b) {
        (Value::Unit, Value::Unit) => c.has_equal(),
        (Value::Bool(x), Value::Bool(y)) => c.matches_ordering(order_of_bools(*x, *y)),
        (Value::Integer(x), Value::Integer(y)) => c.matches_ordering(order_of_ints(*x, *y)),
        _ => false,
    }
}

/// Comparisons of integers follow their order: `<` holds exactly when the
/// first is smaller, `<=` when it is not larger, and so on.
pub proof fn law_compare_integers(c: Cmp, x: i32, y: i32)
    ensures
        compare_cells(c, SValue::Integer(x), SValue::Integer(y)) == match c {
            Cmp::Less => x < y,
            Cmp::LessOrEq => x <= y,
            Cmp::GreaterOrEq => x >= y,
            Cmp::Greater => x > y,
        },
{
}

/// Comparisons of booleans put `false` before `true`; units compare as
/// equal; values of any other kinds never compare.
pub proof fn law_compare_others(c: Cmp, a: bool, b: bool, v: SValue, w: SValue)
    ensures
        compare_cells(c, SValue::Bool(a), SValue::Bool(b)) == match c {
            Cmp::Less => !a && b,
            Cmp::LessOrEq => !a || b,
            Cmp::GreaterOrEq => a || !b,
            Cmp::Greater => a && !b,
        },
        compare_cells(c, SValue::Unit, SValue::Unit) == (c == Cmp::LessOrEq || c == Cmp::GreaterOrEq),
        !(v is Unit && w is Unit) && !(v is Bool && w is Bool) && !(v is Integer && w is Integer)
            ==> !compare_cells(c, v, w),
{
}

} // verus!

//! Text shown in reports.

use vstd::prelude::*;
use crate::calendar::{clock_text, clock_label};

verus! {

/// Quotient of integer division rounded toward zero, as `i64` division does.
pub open spec fn div_toward_zero(a: int, b: int) -> int {
    if a >= 0 {
        a / b
    } else {
        -((-a) / b)
    }
}

/// Remainder that goes with [`div_toward_zero`]: it has the sign of `a`.
pub open spec fn rem_toward_zero(a: int, b: int) -> int {
    if a >= 0 {
        a % b
    } else {
        -((-a) % b)
    }
}

/// A duration in seconds as `HH:MM:SS`; the parts of a negative duration are
/// negative, as with `i64` division.
pub fn format_duration(seconds: i64) -> (r: String)
    ensures
        r@ == clock_text(
            div_toward_zero(seconds as int, 3600) as i64,
            div_toward_zero(rem_toward_zero(seconds as int, 3600), 60) as i64,
            rem_toward_zero(seconds as int, 60) as i64,
        ),
{
    let a: i128 = seconds as i128;
    let m: i128 = if a < 0 {
        -a
    } else {
        a
    };
    let h: i128 = m / 3600;
    let within_hour: i128 = m % 3600;
    let mi: i128 = within_hour / 60;
    let s: i128 = m % 60;
    let (h, mi, s) = if a < 0 {
        (-h, -mi, -s)
    } else {
        (h, mi, s)
    };
    clock_label(h as i64, mi as i64, s as i64)
}

} // verus!

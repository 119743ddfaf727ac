//! Memory panel: gauge colour and whether the swap gauge is shown.

use vstd::prelude::*;
use crate::style::Tint;

verus! {

/// The RAM gauge colour for a usage percentage: red above 90, yellow above
/// 70, cyan otherwise.
pub fn ram_tint(percent: u16) -> (t: Tint)
    ensures
        t == if percent > 90 {
            Tint::Red
        } else if percent > 70 {
            Tint::Yellow
        } else {
            Tint::Cyan
        },
{
    if percent > 90 {
        Tint::Red
    } else if percent > 70 {
        Tint::Yellow
    } else {
        Tint::Cyan
    }
}

/// The swap gauge is shown only when the system has swap space.
pub fn shows_swap(swap_total: u64) -> (b: bool)
    ensures
        b == (swap_total > 0),
{
    swap_total > 0
}

} // verus!

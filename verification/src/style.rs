//! The colours the panels use and the shape of a byte quantity as a panel
//! prints it, independent of any terminal library.

use vstd::prelude::*;

verus! {

/// A foreground or gauge colour of a panel element.
#[derive(Clone, Copy, Debug, PartialEq, Eq, Structural)]
pub enum Tint {
    Red,
    Yellow,
    Green,
    Cyan,
    Magenta,
    Blue,
    White,
}

/// How a byte count is printed: either divided by `divisor` and shown with
/// `decimals` fractional digits followed by `suffix`, or as exact text.
pub enum Reading {
    Scaled { divisor: u64, decimals: usize, suffix: String },
    Exact(String),
}

/// True when `r` is the scaled form with exactly these parameters.
pub open spec fn is_scaled(r: Reading, divisor: nat, decimals: nat, suffix: Seq<char>) -> bool {
    match r {
        Reading::Scaled { divisor: d, decimals: p, suffix: s } => d == divisor && p == decimals && s@
            == suffix,
        Reading::Exact(_) => false,
    }
}

/// True when `r` is the exact form with text `text`.
pub open spec fn is_exact(r: Reading, text: Seq<char>) -> bool {
    match r {
        Reading::Scaled { .. } => false,
        Reading::Exact(s) => s@ == text,
    }
}

/// The scaled form of a reading.
pub fn scaled(divisor: u64, decimals: usize, suffix: &str) -> (r: Reading)
    ensures
        is_scaled(r, divisor as nat, decimals as nat, suffix@),
{
    Reading::Scaled { divisor, decimals, suffix: suffix.to_owned() }
}

} // verus!

//! The event vocabulary the menu front end reports, and the small integer
//! helpers its layout math uses.  Rendering and input polling stay outside
//! this crate.

use vstd::prelude::*;

verus! {

/// One user-visible happening in the menu front end.
#[derive(Debug, PartialEq)]
pub enum TkEvent {
    /// The cursor moved onto the named button.
    ButtonSelect(String),
    /// The named button was pressed.
    ButtonPress(String),
    /// The named slider changed: its level, minimum and maximum.
    SliderChange(String, i32, i32, i32),
    /// The named toggle flipped to the given state.
    ToggleChange(String, bool),
    /// The view switched to the named tab.
    TabChange(String),
    /// Nothing of note.
    Idle,
}

/// Linear remapping of `x` from `[min, max]` onto `[outmin, outmax]`.
pub fn remap(x: i32, min: i32, max: i32, outmin: i32, outmax: i32) -> (r: i32)
    requires
        min <= x <= max,
        min < max,
        outmin <= outmax,
    ensures
        r == outmin + (x - min) * (outmax - outmin) / (max - min),
{
    let a = ((x as i64) - (min as i64)) as u64;
    let b = ((outmax as i64) - (outmin as i64)) as u64;
    let den = ((max as i64) - (min as i64)) as u64;
    proof {
        assert(a * b < 0x10000000000000000) by (nonlinear_arith)
            requires
                a < 0x100000000,
                b < 0x100000000,
        ;
    }
    let num = a * b;
    let q = num / den;
    proof {
        assert(num <= den * b) by (nonlinear_arith)
            requires
                a <= den,
                0 <= b,
                num == a * b,
        ;
        assert(q <= b) by (nonlinear_arith)
            requires
                num <= den * b,
                0 < den,
                q == num / den,
        ;
    }
    ((outmin as i64) + (q as i64)) as i32
}

/// `x` forced into `[min, max]`.
pub fn clamp(x: i32, min: i32, max: i32) -> (r: i32)
    ensures
        r == if x < min {
            min
        } else if x > max {
            max
        } else {
            x
        },
{
    if x < min {
        return min;
    }
    if x > max {
        return max;
    }
    x
}

} // verus!

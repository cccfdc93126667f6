//! How a sample value is placed on the colour range.

use vstd::prelude::*;

verus! {

/// One whole, in the millionths in which samples and positions on the
/// colour range are counted.
pub const UNIT: i64 = 1_000_000;

/// Enum that describes how a value is placed on the color range.
#[derive(Debug, PartialEq, Eq, Structural, Clone, Copy)]
pub enum Scale {
    /// Maps a value range linearly to the color range
    Linear { min: i64, max: i64 },
    /// Maps a value range to the color range along a logarithm
    Log { min: i64, max: i64 },
    /// Maps a value range to the color range along an exponential
    Exponential { min: i64, max: i64 },
    /// Takes the value as its own position
    Equal,
}

/// A position on the colour range, held within the range.
pub open spec fn clamp_unit(c: int) -> int {
    if c < 0 {
        0
    } else if c > UNIT {
        UNIT as int
    } else {
        c
    }
}

/// The scale is curved and the value lies where its curve decides: the
/// position of the value is then the curve's, which the library does not
/// compute itself.
pub open spec fn needs_curve(scale: Scale, value: i64) -> bool {
    match scale {
        Scale::Log { min, max } => min <= value <= max,
        Scale::Exponential { min, max } => min < value < max,
        _ => false,
    }
}

/// Position of a value on the colour range, in millionths. `curve` is the
/// position that the curve of a curved scale gives the value; it counts
/// only where `needs_curve` holds. A linear scale whose two ends coincide
/// places its only value at the start of the range.
pub open spec fn normalized(scale: Scale, value: i64, curve: i64) -> int {
    match scale {
        Scale::Linear { min, max } => if value < min {
            0
        } else if value > max {
            UNIT as int
        } else if max == min {
            0
        } else {
            ((value - min) * UNIT) / (max - min)
        },
        Scale::Log { min, max } => if value < min {
            0
        } else if value > max {
            UNIT as int
        } else {
            clamp_unit(curve as int)
        },
        Scale::Exponential { min, max } => if value <= min {
            0
        } else if value >= max {
            UNIT as int
        } else {
            clamp_unit(curve as int)
        },
        Scale::Equal => value as int,
    }
}

/// Tells whether the position of the value is one that the curve of the
/// scale decides.
pub fn curve_needed(scale: &Scale, value: i64) -> (r: bool)
    ensures
        r == needs_curve(*scale, value),
{
    match scale {
        Scale::Log { min, max } => *min <= value && value <= *max,
        Scale::Exponential { min, max } => *min < value && value < *max,
        _ => false,
    }
}

/// Places a value on the colour range: its position
/// on the colour range, in millionths.
///
/// A linear scale places the value by its distance from `min`, as a part of
/// the distance from `min` to `max`, and holds it at the ends of the range.
/// The two curved scales hold it at the ends likewise; between them the
/// position is `curve`, which the caller evaluates, held within the range.
/// `Equal` passes the value on unchanged.
pub fn normalize(scale: &Scale, value: i64, curve: i64) -> (r: i64)
    ensures
        r == normalized(*scale, value, curve),
        !needs_curve(*scale, value) ==> r == normalized(*scale, value, 0),
        !(*scale is Equal) ==> 0 <= r <= UNIT,
        match *scale {
            Scale::Linear { min, max } | Scale::Log { min, max } => (value < min ==> r == 0) && (value
                > max && value >= min ==> r == UNIT),
            Scale::Exponential { min, max } => (value <= min ==> r == 0) && (value >= max && value
                > min ==> r == UNIT),
            Scale::Equal => r == value,
        },
{
    match scale {
        Scale::Linear { min, max } => {
            if value < *min {
                0
            } else if value > *max {
                UNIT
            } else if *max == *min {
                0
            } else {
                let offset: i128 = value as i128 - *min as i128;
                let span: i128 = *max as i128 - *min as i128;
                assert(0 <= offset * UNIT && 0 <= (offset * UNIT) / (span as int) <= UNIT) by (nonlinear_arith)
                    requires
                        0 <= offset <= span,
                        span > 0,
                ;
                ((offset * (UNIT as i128)) / span) as i64
            }
        },
        Scale::Log { min, max } => {
            if value < *min {
                0
            } else if value > *max {
                UNIT
            } else {
                hold_in_unit(curve)
            }
        },
        Scale::Exponential { min, max } => {
            if value <= *min {
                0
            } else if value >= *max {
                UNIT
            } else {
                hold_in_unit(curve)
            }
        },
        Scale::Equal => value,
    }
}

/// Holds a position within the colour range.
pub fn hold_in_unit(c: i64) -> (r: i64)
    ensures
        r == clamp_unit(c as int),
        0 <= r <= UNIT,
{
    if c < 0 {
        0
    } else if c > UNIT {
        UNIT
    } else {
        c
    }
}

} // verus!

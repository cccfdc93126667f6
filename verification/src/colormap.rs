//! From a position on the colour range to a colour.

use crate::error::TileError;
use crate::qgis::{line_point, parse_qgis_line, ControlPoint};
use crate::scale::UNIT;
use vstd::prelude::*;

verus! {

/// Control points of the red-yellow-blue palette, evenly spaced over the
/// colour range.
pub const RD_YL_BU_DATA: [[u8; 3]; 11] = [
    [165, 0, 38],
    [215, 48, 39],
    [244, 109, 67],
    [253, 174, 97],
    [254, 224, 144],
    [255, 255, 191],
    [224, 243, 248],
    [171, 217, 233],
    [116, 173, 209],
    [69, 117, 180],
    [49, 54, 149],
];

/// Control points of the brown-to-green palette, evenly spaced over the
/// colour range.
pub const BR_BG_DATA: [[u8; 3]; 11] = [
    [84, 48, 5],
    [140, 81, 10],
    [191, 129, 45],
    [223, 194, 125],
    [246, 232, 195],
    [245, 245, 245],
    [199, 234, 229],
    [128, 205, 193],
    [53, 151, 143],
    [1, 102, 94],
    [0, 60, 48],
];

/// One channel of the colour between two control points: `weight`
/// millionths of the way from `c0` to `c1`, rounded down.
pub open spec fn mix(c0: u8, c1: u8, weight: int) -> int {
    (c0 * (UNIT - weight) + c1 * weight) / (UNIT as int)
}

/// One channel of the colour that a table of evenly spaced control points
/// gives a position. Positions before the range get the first control point,
/// positions at or past its end the last one; `reverse` runs the range
/// backwards. A table of one control point gives every position that point.
pub open spec fn ramp(data: Seq<[u8; 3]>, value: int, reverse: bool, channel: int) -> int {
    let v = if reverse {
        UNIT - value
    } else {
        value
    };
    let last = data.len() - 1;
    if v <= 0 || last == 0 {
        data[0][channel] as int
    } else if v >= UNIT {
        data[last][channel] as int
    } else {
        let idx = (v * last) / (UNIT as int);
        let weight = (v * last) % (UNIT as int);
        mix(data[idx][channel], data[idx + 1][channel], weight)
    }
}

/// The shade of gray of a position: 255 times the position, less the whole
/// multiples of 255, rounded down; black before the range.
pub open spec fn gray_of(value: int) -> int {
    if value <= 0 {
        0
    } else {
        ((value * 255) % (255 * UNIT)) / (UNIT as int)
    }
}

/// Returns the shade of gray of a position on the colour range. The shade
/// runs from black at the start of the range to the lightest gray just
/// before its end, and starts over at the end.
pub fn value_to_grayscale(value: i64) -> (c: [u8; 3])
    ensures
        c[0] == gray_of(value as int),
        c[1] == c[0],
        c[2] == c[0],
{
    if value <= 0 {
        return [0, 0, 0];
    }
    let scaled: i128 = (value as i128) * 255;
    let wrapped: i128 = scaled % (255 * (UNIT as i128));
    let gray: u8 = (wrapped / (UNIT as i128)) as u8;
    [gray, gray, gray]
}

/// Mixes one channel of two control points.
pub fn mix_channel(c0: u8, c1: u8, weight: i64) -> (c: u8)
    requires
        0 <= weight <= UNIT,
    ensures
        c == mix(c0, c1, weight as int),
{
    let back: i64 = UNIT - weight;
    assert(0 <= c0 * back <= 255 * back && 0 <= c1 * weight <= 255 * weight) by (nonlinear_arith)
        requires
            0 <= weight,
            0 <= back,
            c0 <= 255,
            c1 <= 255,
    ;
    let near: i64 = (c0 as i64) * back;
    let far: i64 = (c1 as i64) * weight;
    ((near + far) / UNIT) as u8
}

/// Returns pixel colors from a position on the colour range.
/// It linearly interpolate the color between the colors defined in `data`,
/// which are spaced evenly over the range.
pub fn value_to_color(value: i64, data: &[[u8; 3]], reverse: bool) -> (c: [u8; 3])
    requires
        data@.len() > 0,
    ensures
        forall|k: int| 0 <= k < 3 ==> c[k] == ramp(data@, value as int, reverse, k),
{
    // reverse the value if asked
    let v: i128 = if reverse {
        UNIT as i128 - value as i128
    } else {
        value as i128
    };
    let last: usize = data.len() - 1;
    if v <= 0 || last == 0 {
        let first = data[0];
        return [first[0], first[1], first[2]];
    }
    if v >= UNIT as i128 {
        // don't interpolate max values
        let end = data[last];
        return [end[0], end[1], end[2]];
    }
    assert(0 <= v * last < UNIT * last && (v * last) / (UNIT as int) < last) by (nonlinear_arith)
        requires
            0 < v < UNIT,
            0 < last,
    ;
    let scaled: u128 = (v as u128) * (last as u128);
    // get the minimum indice needed for the interpolation
    let idx: usize = (scaled / (UNIT as u128)) as usize;
    let weight: i64 = (scaled % (UNIT as u128)) as i64;
    let lower = data[idx];
    let upper = data[idx + 1];
    // perform the interpolation for each pixel color (RGB)
    [
        mix_channel(lower[0], upper[0], weight),
        mix_channel(lower[1], upper[1], weight),
        mix_channel(lower[2], upper[2], weight),
    ]
}

/// One channel of the colour between two control points of a palette with
/// control points of its own: `lower` from the first and `upper` from the
/// second, rounded down.
pub open spec fn weighted(c0: u8, c1: u8, lower: int, upper: int) -> int {
    (c0 * upper + c1 * lower) / (lower + upper)
}

/// A control point settles a value that it equals, or that lies after it and
/// before the next control point.
pub open spec fn settles(values: Seq<i64>, value: int, i: int) -> bool {
    values[i] == value || values[i] < value < values[i + 1]
}

/// The first control point at or after `from` that settles the value; the
/// last control point where none does.
pub open spec fn bracket_from(values: Seq<i64>, value: int, from: int) -> int
    decreases values.len() - from,
{
    if from >= values.len() - 1 {
        values.len() - 1
    } else if settles(values, value, from) {
        from
    } else {
        bracket_from(values, value, from + 1)
    }
}

/// One channel of the colour that a palette with control points of its own
/// gives a value: the first control point's colour up to its value, the last
/// one's from its value on, and between them the colour of the first control
/// point that settles the value, mixed with the next one's where the value
/// lies between the two.
pub open spec fn custom_channel(values: Seq<i64>, colors: Seq<[u8; 3]>, value: int, channel: int) -> int {
    let last = values.len() - 1;
    if value <= values[0] {
        colors[0][channel] as int
    } else if value >= values[last] {
        colors[last][channel] as int
    } else {
        let i = bracket_from(values, value, 0);
        if values[i] == value {
            colors[i][channel] as int
        } else {
            weighted(
                colors[i][channel],
                colors[i + 1][channel],
                value - values[i],
                values[i + 1] - value,
            )
        }
    }
}

/// A value that lies after a control point and before the last one is
/// settled by a control point in between.
pub proof fn lemma_bracket_found(values: Seq<i64>, value: int, from: int)
    requires
        0 <= from < values.len() - 1,
        values[from] <= value < values[values.len() - 1],
    ensures
        from <= bracket_from(values, value, from) < values.len() - 1,
        settles(values, value, bracket_from(values, value, from)),
        forall|k: int| from <= k < bracket_from(values, value, from) ==> !settles(values, value, k),
    decreases values.len() - from,
{
    if !settles(values, value, from) {
        lemma_bracket_found(values, value, from + 1);
    }
}

/// Mixes one channel of two control points, `lower` from the first and
/// `upper` from the second.
pub fn mix_between(c0: u8, c1: u8, lower: i128, upper: i128) -> (c: u8)
    requires
        0 <= lower <= u64::MAX,
        0 <= upper <= u64::MAX,
        lower + upper > 0,
    ensures
        c == weighted(c0, c1, lower as int, upper as int),
{
    assert(0 <= c0 * upper <= 255 * upper && 0 <= c1 * lower <= 255 * lower) by (nonlinear_arith)
        requires
            0 <= lower,
            0 <= upper,
            c0 <= 255,
            c1 <= 255,
    ;
    let near: i128 = (c0 as i128) * upper;
    let far: i128 = (c1 as i128) * lower;
    let whole: i128 = lower + upper;
    assert((near + far) / (whole as int) <= 255) by (nonlinear_arith)
        requires
            0 <= near + far <= 255 * whole,
            whole > 0,
    ;
    ((near + far) / whole) as u8
}

/// The control points that the first `n` lines of a palette description
/// describe, in the order of the lines. Lines that describe none are passed
/// over.
pub open spec fn points_of(lines: Seq<String>, n: int) -> Seq<ControlPoint>
    decreases n,
{
    if n <= 0 {
        Seq::empty()
    } else {
        match line_point(lines[n - 1]@) {
            Some(p) => points_of(lines, n - 1).push(p),
            None => points_of(lines, n - 1),
        }
    }
}

/// This struct represents a user defined color map,
/// It should directly map values to colors
#[derive(Debug)]
pub struct CustomColormap {
    /// Values of the control points, in millionths
    pub values: Vec<i64>,
    /// Colours of the control points
    pub colors: Vec<[u8; 3]>,
}

impl CustomColormap {
    /// There is at least one control point, and each has a colour.
    pub open spec fn wf(&self) -> bool {
        self.values@.len() > 0 && self.values@.len() == self.colors@.len()
    }

    /// Makes a palette of control points. There is none without a control
    /// point, or where values and colours differ in number.
    pub fn new(values: Vec<i64>, colors: Vec<[u8; 3]>) -> (r: Option<CustomColormap>)
        ensures
            r.is_some() <==> values@.len() > 0 && values@.len() == colors@.len(),
            r matches Some(m) ==> m.wf() && m.values@ == values@ && m.colors@ == colors@,
    {
        if values.len() > 0 && values.len() == colors.len() {
            Some(CustomColormap { values, colors })
        } else {
            None
        }
    }

    /// The palette is made of these control points, in this order.
    pub open spec fn holds_points(&self, points: Seq<ControlPoint>) -> bool {
        &&& self.values@.len() == points.len()
        &&& self.colors@.len() == points.len()
        &&& forall|i: int|
            0 <= i < points.len() ==> {
                &&& self.values@[i] == (#[trigger] points[i]).value
                &&& self.colors@[i][0] == points[i].red
                &&& self.colors@[i][1] == points[i].green
                &&& self.colors@[i][2] == points[i].blue
            }
    }

    /// Create a Custom colormap from the lines of a QGis colormap file.
    /// Every line that describes a control point gives one, the others are
    /// passed over. Without any control point there is no colormap.
    ///
    /// # Caution
    /// It only support interpolated colormap
    pub fn from_qgis_lines(lines: &Vec<String>) -> (r: Result<ColorMap, TileError>)
        ensures
            match r {
                Ok(map) => {
                    &&& points_of(lines@, lines@.len() as int).len() > 0
                    &&& map.wf()
                    &&& map matches ColorMap::Custom(m) && m.holds_points(
                        points_of(lines@, lines@.len() as int),
                    )
                },
                Err(e) => points_of(lines@, lines@.len() as int).len() == 0 && e
                    == TileError::PaletteParse,
            },
    {
        let mut colors: Vec<[u8; 3]> = Vec::new();
        let mut values: Vec<i64> = Vec::new();
        let n = lines.len();
        let mut i: usize = 0;
        while i < n
            invariant
                i <= n,
                n == lines@.len(),
                values@.len() == points_of(lines@, i as int).len(),
                colors@.len() == points_of(lines@, i as int).len(),
                forall|k: int|
                    0 <= k < points_of(lines@, i as int).len() ==> {
                        &&& values@[k] == (#[trigger] points_of(lines@, i as int)[k]).value
                        &&& colors@[k][0] == points_of(lines@, i as int)[k].red
                        &&& colors@[k][1] == points_of(lines@, i as int)[k].green
                        &&& colors@[k][2] == points_of(lines@, i as int)[k].blue
                    },
            decreases n - i,
        {
            match parse_qgis_line(lines[i].as_str()) {
                Some(p) => {
                    colors.push([p.red, p.green, p.blue]);
                    values.push(p.value);
                },
                None => {},
            }
            i += 1;
        }
        if colors.len() > 0 {
            Ok(ColorMap::Custom(CustomColormap { colors, values }))
        } else {
            Err(TileError::PaletteParse)
        }
    }

    /// returns a pixel value, from a dataset value.
    pub fn value_to_color(&self, value: i64) -> (c: [u8; 3])
        requires
            self.wf(),
        ensures
            forall|k: int|
                0 <= k < 3 ==> c[k] == custom_channel(self.values@, self.colors@, value as int, k),
    {
        let last: usize = self.values.len() - 1;
        if value <= self.values[0] {
            let first = self.colors[0];
            return [first[0], first[1], first[2]];
        }
        if value >= self.values[last] {
            let end = self.colors[last];
            return [end[0], end[1], end[2]];
        }
        proof {
            lemma_bracket_found(self.values@, value as int, 0);
        }
        let ghost found = bracket_from(self.values@, value as int, 0);
        let mut i: usize = 0;
        while i < last
            invariant
                self.wf(),
                last == self.values@.len() - 1,
                self.values@[0] < value < self.values@[last as int],
                i <= found < last,
                found == bracket_from(self.values@, value as int, 0),
                settles(self.values@, value as int, found),
                forall|k: int| 0 <= k < found ==> !settles(self.values@, value as int, k),
            decreases last - i,
        {
            if value == self.values[i] {
                assert(settles(self.values@, value as int, i as int));
                let exact = self.colors[i];
                return [exact[0], exact[1], exact[2]];
            }
            if value > self.values[i] && value < self.values[i + 1] {
                assert(settles(self.values@, value as int, i as int));
                let lower_diff: i128 = value as i128 - self.values[i] as i128;
                let upper_diff: i128 = self.values[i + 1] as i128 - value as i128;
                let near = self.colors[i];
                let far = self.colors[i + 1];
                return [
                    mix_between(near[0], far[0], lower_diff, upper_diff),
                    mix_between(near[1], far[1], lower_diff, upper_diff),
                    mix_between(near[2], far[2], lower_diff, upper_diff),
                ];
            }
            assert(!settles(self.values@, value as int, i as int));
            i += 1;
        }
        let end = self.colors[last];
        [end[0], end[1], end[2]]
    }
}

/// Defines values to color association.
///
/// By convention, a `Foo_r` Colormap Variant represents the `Foo` colormap reversed.
///
#[allow(non_camel_case_types)]
#[derive(Debug)]
pub enum ColorMap {
    /// black to gray colorMap
    Grayscale,
    /// Red Yellow Blue colorMap
    RdYlBu,
    /// Reversed Red Yellow Blue ColorMap
    RdYlBu_r,
    /// Brown to Green
    BrBG,
    /// Brown to Green, reversed
    BrBG_r,
    /// User defined
    Custom(CustomColormap),
}

impl ColorMap {
    /// A palette with control points of its own has at least one, each with
    /// a colour.
    pub open spec fn wf(&self) -> bool {
        match self {
            ColorMap::Custom(m) => m.wf(),
            _ => true,
        }
    }

    /// Tells whether a palette with control points of its own has at least
    /// one, each with a colour.
    pub fn is_valid(&self) -> (r: bool)
        ensures
            r == self.wf(),
    {
        match self {
            ColorMap::Custom(m) => m.values.len() > 0 && m.values.len() == m.colors.len(),
            _ => true,
        }
    }

    /// One channel of the colour that the palette gives a position on the
    /// colour range (a palette with control points of its own: a value).
    pub open spec fn channel(&self, value: int, k: int) -> int {
        match self {
            ColorMap::Grayscale => gray_of(value),
            ColorMap::RdYlBu => ramp(RD_YL_BU_DATA@, value, false, k),
            ColorMap::RdYlBu_r => ramp(RD_YL_BU_DATA@, value, true, k),
            ColorMap::BrBG => ramp(BR_BG_DATA@, value, false, k),
            ColorMap::BrBG_r => ramp(BR_BG_DATA@, value, true, k),
            ColorMap::Custom(m) => custom_channel(m.values@, m.colors@, value, k),
        }
    }
}

/// Returns a pixel color from a position on the colour range
/// and a ColorMap variant
pub fn rgb(value: i64, color_map: &ColorMap) -> (c: [u8; 3])
    requires
        color_map.wf(),
    ensures
        forall|k: int| 0 <= k < 3 ==> c[k] == color_map.channel(value as int, k),
{
    match color_map {
        ColorMap::Grayscale => value_to_grayscale(value),
        ColorMap::RdYlBu => value_to_color(value, RD_YL_BU_DATA.as_slice(), false),
        ColorMap::RdYlBu_r => value_to_color(value, RD_YL_BU_DATA.as_slice(), true),
        ColorMap::BrBG => value_to_color(value, BR_BG_DATA.as_slice(), false),
        ColorMap::BrBG_r => value_to_color(value, BR_BG_DATA.as_slice(), true),
        ColorMap::Custom(cmap) => cmap.value_to_color(value),
    }
}

} // verus!

//! Lines of a palette description: a value and the colour that it gets.

use crate::scale::UNIT;
use vstd::prelude::*;

verus! {

/// The shape of a line that describes a control point: the value, then red,
/// green and blue, then two more numbers, the last of which may have a
/// fraction; blanks may follow.
pub const QGIS_LINE: &'static str =
    "^(?P<value>\\d+),(?P<red>\\d+),(?P<green>\\d+),(?P<blue>\\d+),\\d+,\\d+(\\.\\d*)?\\s*$";

/// Largest whole value whose millionths fit a machine word.
pub const MAX_WHOLE_VALUE: u64 = 9_223_372_036_854;

/// The capture groups of the first match of a pattern in a text, in the
/// order of their opening parentheses, the whole match first; a group that
/// took no part in the match is `None`. There are no groups where the text
/// holds no match or the pattern is not a valid one.
pub uninterp spec fn regex_groups(pattern: Seq<char>, text: Seq<char>) -> Option<Seq<Option<Seq<char>>>>;

/// The text of a capture group.
pub open spec fn group_text(g: Option<String>) -> Option<Seq<char>> {
    match g {
        Some(s) => Some(s@),
        None => None,
    }
}

/// The texts of a list of capture groups.
pub open spec fn groups_of(v: Seq<Option<String>>) -> Seq<Option<Seq<char>>> {
    v.map_values(|g: Option<String>| group_text(g))
}

/// Matches a text against a pattern with `regex::Regex::new` and
/// `regex::Regex::captures`, and copies out the text of every capture group
/// as `regex::Captures::iter` yields them. The contract only gives the
/// outcome its name: nothing is claimed about what the groups hold.
#[verifier::external_body]
fn capture_groups(pattern: &str, text: &str) -> (r: Option<Vec<Option<String>>>)
    ensures
        match r {
            Some(v) => regex_groups(pattern@, text@) == Some(groups_of(v@)),
            None => regex_groups(pattern@, text@).is_none(),
        },
{
    match regex::Regex::new(pattern) {
        Ok(re) => re.captures(text).map(
            |caps| caps.iter().map(|m| m.map(|found| found.as_str().to_string())).collect(),
        ),
        Err(_) => None,
    }
}

/// A decimal digit.
pub open spec fn is_digit(c: char) -> bool {
    '0' <= c <= '9'
}

/// The number that a run of decimal digits writes.
pub open spec fn number_of(s: Seq<char>) -> int
    decreases s.len(),
{
    if s.len() == 0 {
        0
    } else {
        number_of(s.drop_last()) * 10 + (s.last() as int - '0' as int)
    }
}

/// The number that a text writes, where the text is a run of at least one
/// decimal digit and the number does not exceed `limit`.
pub open spec fn number_up_to(s: Seq<char>, limit: int) -> Option<int> {
    if s.len() > 0 && all_digits(s) && number_of(s) <= limit {
        Some(number_of(s))
    } else {
        None
    }
}

/// A run of decimal digits.
pub open spec fn all_digits(s: Seq<char>) -> bool {
    forall|i: int| 0 <= i < s.len() ==> is_digit(#[trigger] s[i])
}

/// The number written by the first digits of a run is not greater than the
/// number written by the whole run.
pub proof fn lemma_number_grows(s: Seq<char>, n: int)
    requires
        all_digits(s),
        0 <= n <= s.len(),
    ensures
        0 <= number_of(s.take(n)) <= number_of(s),
    decreases s.len() - n,
{
    if n == s.len() {
        assert(s.take(n) =~= s);
        lemma_number_nonnegative(s);
    } else {
        lemma_number_grows(s, n + 1);
        lemma_number_step(s, n);
        lemma_number_nonnegative(s.take(n));
    }
}

/// A run of digits writes a number that is not negative.
pub proof fn lemma_number_nonnegative(s: Seq<char>)
    requires
        all_digits(s),
    ensures
        0 <= number_of(s),
    decreases s.len(),
{
    if s.len() > 0 {
        assert(is_digit(s[s.len() - 1]));
        lemma_number_nonnegative(s.drop_last());
    }
}

/// One more digit multiplies the number by ten and adds the digit.
pub proof fn lemma_number_step(s: Seq<char>, n: int)
    requires
        0 <= n < s.len(),
    ensures
        number_of(s.take(n + 1)) == number_of(s.take(n)) * 10 + (s[n] as int - '0' as int),
{
    assert(s.take(n + 1).drop_last() =~= s.take(n));
    assert(s.take(n + 1).last() == s[n]);
}

/// Reads a text as a number: a run of at least one decimal digit that
/// writes a number up to `limit`. Any other text is no number.
pub fn parse_number(text: &str, limit: u64) -> (r: Option<u64>)
    ensures
        match number_up_to(text@, limit as int) {
            Some(n) => r == Some(n as u64) && 0 <= n <= limit,
            None => r.is_none(),
        },
{
    let n = text.unicode_len();
    if n == 0 {
        return None;
    }
    let mut acc: u64 = 0;
    let mut i: usize = 0;
    while i < n
        invariant
            i <= n,
            n == text@.len(),
            all_digits(text@.take(i as int)),
            acc == number_of(text@.take(i as int)),
            acc <= limit,
        decreases n - i,
    {
        let c = text.get_char(i);
        if c < '0' || c > '9' {
            proof {
                assert(!is_digit(text@[i as int]));
            }
            return None;
        }
        let digit: u128 = (c as u32 - '0' as u32) as u128;
        let next: u128 = (acc as u128) * 10 + digit;
        proof {
            lemma_number_step(text@, i as int);
            assert(all_digits(text@.take(i + 1))) by {
                assert forall|k: int| 0 <= k < i + 1 implies is_digit(
                    #[trigger] text@.take(i + 1)[k],
                ) by {
                    if k < i {
                        assert(text@.take(i as int)[k] == text@[k]);
                    }
                }
            }
        }
        if next > limit as u128 {
            proof {
                if all_digits(text@) {
                    lemma_number_grows(text@, i + 1);
                }
            }
            return None;
        }
        acc = next as u64;
        i += 1;
    }
    proof {
        assert(text@.take(n as int) =~= text@);
    }
    Some(acc)
}

/// A value and the colour that a palette gives it.
#[derive(Debug, PartialEq, Eq, Structural, Clone, Copy)]
pub struct ControlPoint {
    /// The value, in millionths
    pub value: i64,
    pub red: u8,
    pub green: u8,
    pub blue: u8,
}

/// The number that a capture group writes, up to `limit`.
pub open spec fn group_number(g: Option<Seq<char>>, limit: int) -> Option<int> {
    match g {
        Some(s) => number_up_to(s, limit),
        None => None,
    }
}

/// The control point that the capture groups of a line describe: the first
/// group after the whole match is the value, the next three are red, green
/// and blue. There is none where a group is missing or is no number, where
/// the value's millionths do not fit a machine word, or where a colour
/// exceeds 255.
pub open spec fn control_point_of(groups: Seq<Option<Seq<char>>>) -> Option<ControlPoint> {
    if groups.len() < 5 {
        None
    } else {
        match (
            group_number(groups[1], MAX_WHOLE_VALUE as int),
            group_number(groups[2], 255),
            group_number(groups[3], 255),
            group_number(groups[4], 255),
        ) {
            (Some(v), Some(r), Some(g), Some(b)) => Some(
                ControlPoint { value: (v * UNIT) as i64, red: r as u8, green: g as u8, blue: b as u8 },
            ),
            _ => None,
        }
    }
}

/// The control point that a line describes, if it describes one.
pub open spec fn line_point(line: Seq<char>) -> Option<ControlPoint> {
    match regex_groups(QGIS_LINE@, line) {
        Some(groups) => control_point_of(groups),
        None => None,
    }
}

/// Reads a capture group as a number up to `limit`.
pub fn parse_group(group: &Option<String>, limit: u64) -> (r: Option<u64>)
    ensures
        match group_number(group_text(*group), limit as int) {
            Some(n) => r == Some(n as u64) && 0 <= n <= limit,
            None => r.is_none(),
        },
{
    match group {
        Some(text) => parse_number(text.as_str(), limit),
        None => None,
    }
}

/// Reads the control point off the capture groups of a line.
pub fn control_point(groups: &Vec<Option<String>>) -> (r: Option<ControlPoint>)
    ensures
        r == control_point_of(groups_of(groups@)),
{
    if groups.len() < 5 {
        return None;
    }
    proof {
        let texts = groups_of(groups@);
        assert(texts[1] == group_text(groups@[1]));
        assert(texts[2] == group_text(groups@[2]));
        assert(texts[3] == group_text(groups@[3]));
        assert(texts[4] == group_text(groups@[4]));
    }
    let value = parse_group(&groups[1], MAX_WHOLE_VALUE);
    let red = parse_group(&groups[2], 255);
    let green = parse_group(&groups[3], 255);
    let blue = parse_group(&groups[4], 255);
    match (value, red, green, blue) {
        (Some(v), Some(r), Some(g), Some(b)) => Some(
            ControlPoint { value: (v as i64) * UNIT, red: r as u8, green: g as u8, blue: b as u8 },
        ),
        _ => None,
    }
}

/// Reads one line of a palette description: the control point that it
/// describes, or nothing where the line does not have the shape of one.
pub fn parse_qgis_line(line: &str) -> (r: Option<ControlPoint>)
    ensures
        r == line_point(line@),
{
    match capture_groups(QGIS_LINE, line) {
        Some(groups) => control_point(&groups),
        None => None,
    }
}

} // verus!

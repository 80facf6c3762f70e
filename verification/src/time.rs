//! Instants and durations, as plain integers, and the two literals that
//! descriptors may hold: a timestamp and a duration.
//!
//! The literals are read by `hifitime`. This module decides which texts are
//! handed to it ([`is_timestamp`], [`is_duration_literal`]) and names what it
//! returns for them ([`timestamp_value`], [`duration_literal_value`]).

use crate::text::{
    all_digits, chars_of, digits_between, find, lemma_position_from, position, position_from,
    spells,
};
use vstd::prelude::*;

verus! {

/// A signed span of time, counted in nanoseconds.
#[derive(Clone, Copy, Debug, PartialEq, Eq, PartialOrd, Ord, Hash, Structural)]
pub struct Duration {
    /// Total number of nanoseconds, negative for a span that runs backwards.
    pub nanoseconds: i128,
}

/// An instant, counted in nanoseconds of International Atomic Time (TAI)
/// elapsed since 1900-01-01 at midnight TAI.
#[derive(Clone, Copy, Debug, PartialEq, Eq, PartialOrd, Ord, Hash, Structural)]
pub struct Epoch {
    /// Nanoseconds of TAI since the reference instant, negative before it.
    pub tai_nanoseconds: i128,
}

/// Longest quantity that a duration literal may hold, in characters.
pub const MAX_QUANTITY_LEN: usize = 32;

/// The time scales that a timestamp may name.
pub open spec fn is_time_scale(s: Seq<char>) -> bool {
    ||| s == "UTC"@
    ||| s == "TAI"@
    ||| s == "TT"@
    ||| s == "GPST"@
    ||| s == "GST"@
    ||| s == "BDT"@
    ||| s == "QZSST"@
}

/// A fraction of a second: nothing, or a point and one to nine digits.
pub open spec fn is_fraction(s: Seq<char>) -> bool {
    s.len() == 0 || (s[0] == '.' && 2 <= s.len() <= 10 && all_digits(s.skip(1)))
}

/// The shape of a timestamp: `YYYY-MM-DD`, a `T` or a space, `hh:mm:ss`,
/// then an optional fraction of a second and an optional time scale after one
/// space, as in `2020-01-14T00:31:55.25 UTC`.
///
/// The shape says nothing of the calendar: `2020-13-45T00:00:00` has it.
pub open spec fn is_timestamp(t: Seq<char>) -> bool {
    &&& t.len() >= 19
    &&& all_digits(t.subrange(0, 4))
    &&& t[4] == '-'
    &&& all_digits(t.subrange(5, 7))
    &&& t[7] == '-'
    &&& all_digits(t.subrange(8, 10))
    &&& (t[10] == 'T' || t[10] == ' ')
    &&& all_digits(t.subrange(11, 13))
    &&& t[13] == ':'
    &&& all_digits(t.subrange(14, 16))
    &&& t[16] == ':'
    &&& all_digits(t.subrange(17, 19))
    &&& is_fraction(t.subrange(19, position_from(t, ' ', 19)))
    &&& (position_from(t, ' ', 19) == t.len() || is_time_scale(
        t.skip(position_from(t, ' ', 19) + 1),
    ))
}

/// A quantity: digits, with at most one decimal point that has digits on both
/// sides, in no more than [`MAX_QUANTITY_LEN`] characters.
pub open spec fn is_quantity(q: Seq<char>) -> bool {
    let dot = position(q, '.');
    &&& 1 <= q.len() <= MAX_QUANTITY_LEN
    &&& 1 <= dot
    &&& all_digits(q.take(dot))
    &&& (dot == q.len() || (dot + 1 < q.len() && all_digits(q.skip(dot + 1))))
}

/// The units of time that a duration literal may name.
pub open spec fn is_time_unit(s: Seq<char>) -> bool {
    ||| s == "d"@
    ||| s == "day"@
    ||| s == "days"@
    ||| s == "h"@
    ||| s == "hr"@
    ||| s == "hour"@
    ||| s == "hours"@
    ||| s == "min"@
    ||| s == "mins"@
    ||| s == "minute"@
    ||| s == "minutes"@
    ||| s == "s"@
    ||| s == "sec"@
    ||| s == "second"@
    ||| s == "seconds"@
    ||| s == "ms"@
    ||| s == "millisecond"@
    ||| s == "milliseconds"@
    ||| s == "us"@
    ||| s == "microsecond"@
    ||| s == "microseconds"@
    ||| s == "ns"@
    ||| s == "nanosecond"@
    ||| s == "nanoseconds"@
}

/// The shape of a duration literal: a quantity, one space and a unit of
/// time, as in `10 min` or `1.5 hour`.
pub open spec fn is_duration_literal(t: Seq<char>) -> bool {
    let space = position(t, ' ');
    &&& is_quantity(t.take(space))
    &&& space < t.len()
    &&& is_time_unit(t.skip(space + 1))
}

/// What `hifitime` reads in a text that has the shape of a duration literal:
/// the total number of nanoseconds, or nothing where it rejects the text.
pub uninterp spec fn duration_literal_value(text: Seq<char>) -> Option<i128>;

/// What `hifitime` reads in a text that has the shape of a timestamp: the
/// instant as nanoseconds of TAI since 1900-01-01 at midnight, or nothing
/// where it rejects the text.
pub uninterp spec fn timestamp_value(text: Seq<char>) -> Option<i128>;

/// Calls `hifitime::Duration::from_str` and, on what it accepts,
/// `hifitime::Duration::total_nanoseconds`.
///
/// Not proved: that the outcome depends on nothing but the text, which is
/// what naming it [`duration_literal_value`] claims. The parser panics on a
/// number that is not finite; the shape that is asked for leaves it one
/// quantity to read, made of digits and of 32 characters at most, which is
/// finite.
#[verifier::external_body]
fn read_duration(text: &str) -> (r: Option<i128>)
    requires
        is_duration_literal(text@),
    ensures
        r == duration_literal_value(text@),
{
    match text.parse::<hifitime::Duration>() {
        Ok(duration) => Some(duration.total_nanoseconds()),
        Err(_) => None,
    }
}

/// Calls `hifitime::Epoch::from_str` and, on what it accepts,
/// `hifitime::Epoch::to_tai_duration` and
/// `hifitime::Duration::total_nanoseconds`.
///
/// Not proved: that the outcome depends on nothing but the text, which is
/// what naming it [`timestamp_value`] claims. The shape that is asked for
/// keeps the parser away from what it panics on or takes long over: numbers
/// that are not finite (in its `JD`, `MJD` and `SEC` forms), fractions of
/// more than nine digits and years of more than four. It also leaves out
/// the time scales that are converted to TAI through floating-point
/// trigonometry, whose last digit may differ from one machine to another.
#[verifier::external_body]
fn read_timestamp(text: &str) -> (r: Option<i128>)
    requires
        is_timestamp(text@),
    ensures
        r == timestamp_value(text@),
{
    match text.parse::<hifitime::Epoch>() {
        Ok(epoch) => Some(epoch.to_tai_duration().total_nanoseconds()),
        Err(_) => None,
    }
}

/// Whether the characters of `chars` from `from` on name a time scale.
fn time_scale_from(chars: &Vec<char>, from: usize) -> (r: bool)
    requires
        from <= chars.len(),
    ensures
        r == is_time_scale(chars@.skip(from as int)),
{
    spells(chars, from, "UTC") || spells(chars, from, "TAI") || spells(chars, from, "TT")
        || spells(chars, from, "GPST") || spells(chars, from, "GST") || spells(chars, from, "BDT")
        || spells(chars, from, "QZSST")
}

/// Whether the characters of `chars` from `from` on name a unit of time.
fn time_unit_from(chars: &Vec<char>, from: usize) -> (r: bool)
    requires
        from <= chars.len(),
    ensures
        r == is_time_unit(chars@.skip(from as int)),
{
    spells(chars, from, "d")
        || spells(chars, from, "day")
        || spells(chars, from, "days")
        || spells(chars, from, "h")
        || spells(chars, from, "hr")
        || spells(chars, from, "hour")
        || spells(chars, from, "hours")
        || spells(chars, from, "min")
        || spells(chars, from, "mins")
        || spells(chars, from, "minute")
        || spells(chars, from, "minutes")
        || spells(chars, from, "s")
        || spells(chars, from, "sec")
        || spells(chars, from, "second")
        || spells(chars, from, "seconds")
        || spells(chars, from, "ms")
        || spells(chars, from, "millisecond")
        || spells(chars, from, "milliseconds")
        || spells(chars, from, "us")
        || spells(chars, from, "microsecond")
        || spells(chars, from, "microseconds")
        || spells(chars, from, "ns")
        || spells(chars, from, "nanosecond")
        || spells(chars, from, "nanoseconds")
}

/// Whether `chars` has the shape of a timestamp.
pub fn has_timestamp_shape(chars: &Vec<char>) -> (r: bool)
    ensures
        r == is_timestamp(chars@),
{
    let n = chars.len();
    if n < 19 {
        return false;
    }
    let date = digits_between(chars, 0, 4) && chars[4] == '-' && digits_between(chars, 5, 7)
        && chars[7] == '-' && digits_between(chars, 8, 10);
    let clock = digits_between(chars, 11, 13) && chars[13] == ':' && digits_between(chars, 14, 16)
        && chars[16] == ':' && digits_between(chars, 17, 19);
    if !(date && (chars[10] == 'T' || chars[10] == ' ') && clock) {
        return false;
    }
    let space = find(chars, ' ', 19);
    let ghost fraction = chars@.subrange(19, space as int);
    let fraction_ok = if space == 19 {
        true
    } else if chars[19] == '.' && space - 19 >= 2 && space - 19 <= 10 {
        proof {
            assert(fraction.skip(1) =~= chars@.subrange(20, space as int));
        }
        digits_between(chars, 20, space)
    } else {
        false
    };
    proof {
        if space > 19 {
            assert(fraction[0] == chars@[19]);
        }
    }
    if !fraction_ok {
        return false;
    }
    space == n || time_scale_from(chars, space + 1)
}

/// Whether the characters of `chars` before `end` form a quantity.
fn has_quantity_shape(chars: &Vec<char>, end: usize) -> (r: bool)
    requires
        end <= chars.len(),
    ensures
        r == is_quantity(chars@.take(end as int)),
{
    let ghost q = chars@.take(end as int);
    if end < 1 || end > MAX_QUANTITY_LEN {
        return false;
    }
    let first_dot = find(chars, '.', 0);
    let dot = if first_dot < end {
        first_dot
    } else {
        end
    };
    proof {
        lemma_position_take(chars@, '.', end as int, 0);
        assert(q.take(dot as int) =~= chars@.subrange(0, dot as int));
        if dot < end {
            assert(q.skip(dot + 1) =~= chars@.subrange(dot + 1, end as int));
        }
    }
    if dot < 1 || !digits_between(chars, 0, dot) {
        return false;
    }
    dot == end || (dot + 1 < end && digits_between(chars, dot + 1, end))
}

/// Whether `chars` has the shape of a duration literal.
pub fn has_duration_shape(chars: &Vec<char>) -> (r: bool)
    ensures
        r == is_duration_literal(chars@),
{
    let n = chars.len();
    let space = find(chars, ' ', 0);
    has_quantity_shape(chars, space) && space < n && time_unit_from(chars, space + 1)
}

/// The first occurrence of a character in a prefix is its first occurrence in
/// the whole text, unless that lies beyond the prefix.
pub proof fn lemma_position_take(s: Seq<char>, c: char, end: int, i: int)
    requires
        0 <= i <= end <= s.len(),
    ensures
        position_from(s.take(end), c, i) == if position_from(s, c, i) < end {
            position_from(s, c, i)
        } else {
            end
        },
    decreases end - i,
{
    lemma_position_from(s, c, i);
    if i < end {
        assert(s.take(end)[i] == s[i]);
        if s[i] != c {
            lemma_position_take(s, c, end, i + 1);
        }
    }
}

impl Duration {
    /// The span of `nanoseconds` nanoseconds.
    pub fn from_nanoseconds(nanoseconds: i128) -> (r: Duration)
        ensures
            r.nanoseconds == nanoseconds,
    {
        Duration { nanoseconds }
    }

    /// What a duration literal stands for.
    pub open spec fn literal(text: Seq<char>) -> Option<Duration> {
        if is_duration_literal(text) {
            Self::of_reading(duration_literal_value(text))
        } else {
            None
        }
    }

    /// The duration that `hifitime` read, if it read one.
    pub open spec fn of_reading(reading: Option<i128>) -> Option<Duration> {
        match reading {
            Some(nanoseconds) => Some(Duration { nanoseconds }),
            None => None,
        }
    }

    /// Turns what `hifitime` read in a duration literal into a duration.
    pub fn from_reading(reading: Option<i128>) -> (r: Option<Duration>)
        ensures
            r == Self::of_reading(reading),
    {
        match reading {
            Some(nanoseconds) => Some(Duration { nanoseconds }),
            None => None,
        }
    }

    /// Reads a duration literal such as `10 min`.
    ///
    /// A text without the shape of a duration literal is not a duration; one
    /// that has it is what `hifitime` reads in it.
    pub fn parse(text: &str) -> (r: Option<Duration>)
        ensures
            r == Self::literal(text@),
    {
        let chars = chars_of(text);
        if has_duration_shape(&chars) {
            Self::from_reading(read_duration(text))
        } else {
            None
        }
    }
}

impl Epoch {
    /// The instant `tai_nanoseconds` nanoseconds of TAI after 1900-01-01 at
    /// midnight TAI.
    pub fn from_tai_nanoseconds(tai_nanoseconds: i128) -> (r: Epoch)
        ensures
            r.tai_nanoseconds == tai_nanoseconds,
    {
        Epoch { tai_nanoseconds }
    }

    /// What a timestamp stands for.
    pub open spec fn literal(text: Seq<char>) -> Option<Epoch> {
        if is_timestamp(text) {
            Self::of_reading(timestamp_value(text))
        } else {
            None
        }
    }

    /// The instant that `hifitime` read, if it read one.
    pub open spec fn of_reading(reading: Option<i128>) -> Option<Epoch> {
        match reading {
            Some(tai_nanoseconds) => Some(Epoch { tai_nanoseconds }),
            None => None,
        }
    }

    /// Turns what `hifitime` read in a timestamp into an instant.
    pub fn from_reading(reading: Option<i128>) -> (r: Option<Epoch>)
        ensures
            r == Self::of_reading(reading),
    {
        match reading {
            Some(tai_nanoseconds) => Some(Epoch { tai_nanoseconds }),
            None => None,
        }
    }

    /// Reads a timestamp such as `2020-01-14T00:31:55 UTC`.
    ///
    /// A text without the shape of a timestamp is not an instant; one that
    /// has it is what `hifitime` reads in it.
    pub fn parse(text: &str) -> (r: Option<Epoch>)
        ensures
            r == Self::literal(text@),
    {
        let chars = chars_of(text);
        if has_timestamp_shape(&chars) {
            Self::from_reading(read_timestamp(text))
        } else {
            None
        }
    }
}

} // verus!

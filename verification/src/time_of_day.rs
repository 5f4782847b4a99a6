//! The wall-clock time-of-day component of a reading, carried separately from
//! the date so that it round-trips exactly to its `HH:MM` source text.

use vstd::prelude::*;
use vstd::string::StrSliceExecFns;
use vstd::string::StringExecFns;
use crate::digits::{all_digits, char_digit, digit_char, digit_str, digit_val, is_digit_char,
    lemma_digit_char_of_val, lemma_digit_val_of_char};

verus! {

/// A wall-clock time of day with minute precision.
#[derive(PartialEq, Eq, Structural, Clone, Copy, Debug)]
pub struct TimeOfDay {
    pub hour: u8,
    pub minute: u8,
}

impl TimeOfDay {
    /// The hour and minute lie in their calendar ranges.
    pub open spec fn wf(self) -> bool {
        self.hour < 24 && self.minute < 60
    }
}

/// Whether a character sequence is a well-formed `HH:MM` time.
pub open spec fn valid_time_str(s: Seq<char>) -> bool {
    &&& s.len() == 5
    &&& is_digit_char(s[0])
    &&& is_digit_char(s[1])
    &&& s[2] == ':'
    &&& is_digit_char(s[3])
    &&& is_digit_char(s[4])
    &&& digit_val(s[0]) * 10 + digit_val(s[1]) < 24
    &&& digit_val(s[3]) * 10 + digit_val(s[4]) < 60
}

/// The time denoted by a well-formed `HH:MM` sequence.
pub open spec fn time_from_str(s: Seq<char>) -> TimeOfDay {
    TimeOfDay {
        hour: (digit_val(s[0]) * 10 + digit_val(s[1])) as u8,
        minute: (digit_val(s[3]) * 10 + digit_val(s[4])) as u8,
    }
}

/// The `HH:MM` rendering of a time of day.
pub open spec fn str_of_time(t: TimeOfDay) -> Seq<char> {
    seq![
        digit_char(t.hour as int / 10),
        digit_char(t.hour as int % 10),
        ':',
        digit_char(t.minute as int / 10),
        digit_char(t.minute as int % 10),
    ]
}

/// Parses an `HH:MM` field; `None` exactly on malformed text.
pub fn parse_time_of_day(s: &str) -> (r: Option<TimeOfDay>)
    ensures
        r is Some <==> valid_time_str(s@),
        r is Some ==> r->Some_0 == time_from_str(s@) && r->Some_0.wf(),
{
    if s.unicode_len() != 5 {
        return None;
    }
    let d0 = match char_digit(s.get_char(0)) {
        Some(d) => d,
        None => {
            return None;
        },
    };
    let d1 = match char_digit(s.get_char(1)) {
        Some(d) => d,
        None => {
            return None;
        },
    };
    if s.get_char(2) != ':' {
        return None;
    }
    let d3 = match char_digit(s.get_char(3)) {
        Some(d) => d,
        None => {
            return None;
        },
    };
    let d4 = match char_digit(s.get_char(4)) {
        Some(d) => d,
        None => {
            return None;
        },
    };
    let hour = d0 * 10 + d1;
    let minute = d3 * 10 + d4;
    if hour >= 24 || minute >= 60 {
        return None;
    }
    Some(TimeOfDay { hour, minute })
}

/// Formats a time of day back to its `HH:MM` source form.
pub fn format_time_of_day(t: &TimeOfDay) -> (r: String)
    requires
        t.wf(),
    ensures
        r@ == str_of_time(*t),
{
    let mut s = String::new();
    s.append(digit_str(t.hour / 10));
    s.append(digit_str(t.hour % 10));
    s.append(":");
    s.append(digit_str(t.minute / 10));
    s.append(digit_str(t.minute % 10));
    proof {
        reveal_strlit(":");
        assert(s@ =~= str_of_time(*t));
    }
    s
}

/// Formatting the time parsed from a well-formed `HH:MM` sequence reproduces
/// that sequence exactly.
pub proof fn lemma_time_round_trip(s: Seq<char>)
    requires
        valid_time_str(s),
    ensures
        str_of_time(time_from_str(s)) == s,
{
    let t = time_from_str(s);
    lemma_digit_char_of_val(s[0]);
    lemma_digit_char_of_val(s[1]);
    lemma_digit_char_of_val(s[3]);
    lemma_digit_char_of_val(s[4]);
    vstd::arithmetic::div_mod::lemma_fundamental_div_mod_converse(
        t.hour as int,
        10,
        digit_val(s[0]),
        digit_val(s[1]),
    );
    vstd::arithmetic::div_mod::lemma_fundamental_div_mod_converse(
        t.minute as int,
        10,
        digit_val(s[3]),
        digit_val(s[4]),
    );
    assert(str_of_time(t) =~= s);
}

/// Parsing the rendering of a well-formed time of day gives back that time.
pub proof fn lemma_time_round_trip_value(t: TimeOfDay)
    requires
        t.wf(),
    ensures
        valid_time_str(str_of_time(t)),
        time_from_str(str_of_time(t)) == t,
{
    let s = str_of_time(t);
    vstd::arithmetic::div_mod::lemma_fundamental_div_mod(t.hour as int, 10);
    vstd::arithmetic::div_mod::lemma_fundamental_div_mod(t.minute as int, 10);
    lemma_digit_val_of_char(t.hour as int / 10);
    lemma_digit_val_of_char(t.hour as int % 10);
    lemma_digit_val_of_char(t.minute as int / 10);
    lemma_digit_val_of_char(t.minute as int % 10);
}

} // verus!

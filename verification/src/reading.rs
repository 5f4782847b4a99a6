//! Raw source rows and the record parser that turns one row into a typed
//! reading, validating each field and surfacing malformed rows as errors.

use vstd::prelude::*;
use vstd::string::StrSliceExecFns;
use crate::calendar::{civil_to_days, days_in_month, month_length, spec_civil_to_days};
use crate::digits::{char_digit, digit_val, is_digit_char};
use crate::price::{parse_price, price_micro_from_str, valid_price_str, PriceMicro};
use crate::time_of_day::{parse_time_of_day, time_from_str, valid_time_str, TimeOfDay};

verus! {

/// Bounds, in seconds since the Unix epoch, on every instant the parser
/// accepts: any date of years 0 through 9999 under any standard UTC offset
/// fits between them.
pub const INSTANT_SECS_MIN: i64 = -62168000000;

pub const INSTANT_SECS_MAX: i64 = 260000000000;

/// An absolute point in time, as seconds since the Unix epoch.
#[derive(PartialEq, Eq, Structural, Clone, Copy, Debug)]
pub struct UtcInstant {
    pub secs: i64,
}

impl UtcInstant {
    /// The instant lies within the range the parser can produce.
    pub open spec fn wf(self) -> bool {
        INSTANT_SECS_MIN <= self.secs <= INSTANT_SECS_MAX
    }
}

/// One parsed source row: an absolute instant, the wall-clock time-of-day
/// text carried beside it, and a price.
#[derive(PartialEq, Eq, Structural, Clone, Copy, Debug)]
pub struct Reading {
    pub instant: UtcInstant,
    pub time_of_day: TimeOfDay,
    pub price: PriceMicro,
}

impl Reading {
    /// All three fields lie in their representable ranges.
    pub open spec fn wf(self) -> bool {
        self.instant.wf() && self.time_of_day.wf() && self.price.wf()
    }
}

/// One raw row of the source feed, in its fixed column order. The two
/// auxiliary fields are carried but not used downstream.
#[derive(Debug, Clone)]
pub struct RawRow {
    pub timestamp: String,
    pub time: String,
    pub aux1: String,
    pub aux2: String,
    pub price: String,
}

/// Why a row was rejected, carrying the offending raw field.
#[derive(Debug, Clone)]
pub enum ParseError {
    MalformedTimestamp { raw: String },
    MalformedTime { raw: String },
    MalformedPrice { raw: String },
}

/// The year denoted by the first four characters of a timestamp field.
pub open spec fn ts_year(s: Seq<char>) -> int {
    digit_val(s[0]) * 1000 + digit_val(s[1]) * 100 + digit_val(s[2]) * 10 + digit_val(s[3])
}

/// A two-digit number at position `i` of a timestamp field.
pub open spec fn ts_two(s: Seq<char>, i: int) -> int {
    digit_val(s[i]) * 10 + digit_val(s[i + 1])
}

/// The signed UTC offset, in seconds, written at the end of a timestamp.
pub open spec fn ts_offset_secs(s: Seq<char>) -> int {
    (if s[19] == '+' {
        1int
    } else {
        -1int
    }) * (ts_two(s, 20) * 3600 + ts_two(s, 22) * 60)
}

/// Whether a character sequence is a well-formed
/// `YYYY-MM-DD HH:MM:SS+HHMM` timestamp (the sign may also be minus),
/// naming an existing civil date and a valid time and offset.
pub open spec fn valid_timestamp_str(s: Seq<char>) -> bool {
    &&& s.len() == 24
    &&& is_digit_char(s[0])
    &&& is_digit_char(s[1])
    &&& is_digit_char(s[2])
    &&& is_digit_char(s[3])
    &&& s[4] == '-'
    &&& is_digit_char(s[5])
    &&& is_digit_char(s[6])
    &&& s[7] == '-'
    &&& is_digit_char(s[8])
    &&& is_digit_char(s[9])
    &&& s[10] == ' '
    &&& is_digit_char(s[11])
    &&& is_digit_char(s[12])
    &&& s[13] == ':'
    &&& is_digit_char(s[14])
    &&& is_digit_char(s[15])
    &&& s[16] == ':'
    &&& is_digit_char(s[17])
    &&& is_digit_char(s[18])
    &&& (s[19] == '+' || s[19] == '-')
    &&& is_digit_char(s[20])
    &&& is_digit_char(s[21])
    &&& is_digit_char(s[22])
    &&& is_digit_char(s[23])
    &&& 1 <= ts_two(s, 5) <= 12
    &&& 1 <= ts_two(s, 8) <= days_in_month(ts_year(s), ts_two(s, 5))
    &&& ts_two(s, 11) < 24
    &&& ts_two(s, 14) < 60
    &&& ts_two(s, 17) < 60
    &&& ts_two(s, 20) < 24
    &&& ts_two(s, 22) < 60
}

/// The UTC instant, in seconds since the epoch, of a well-formed timestamp.
pub open spec fn timestamp_utc_secs(s: Seq<char>) -> int {
    spec_civil_to_days(ts_year(s), ts_two(s, 5), ts_two(s, 8)) * 86400 + ts_two(s, 11) * 3600
        + ts_two(s, 14) * 60 + ts_two(s, 17) - ts_offset_secs(s)
}

/// Whether all three parsed fields of a row are well formed.
pub open spec fn row_valid(row: RawRow) -> bool {
    &&& valid_timestamp_str(row.timestamp@)
    &&& valid_time_str(row.time@)
    &&& valid_price_str(row.price@)
}

/// The reading denoted by a well-formed row.
pub open spec fn reading_of_row(row: RawRow) -> Reading {
    Reading {
        instant: UtcInstant { secs: timestamp_utc_secs(row.timestamp@) as i64 },
        time_of_day: time_from_str(row.time@),
        price: PriceMicro { micro: price_micro_from_str(row.price@) as i64 },
    }
}

/// Whether `e` is exactly the error the parser owes for `row`: the first
/// malformed field in column order, carried verbatim.
pub open spec fn parse_error_matches(row: RawRow, e: ParseError) -> bool {
    match e {
        ParseError::MalformedTimestamp { raw } => !valid_timestamp_str(row.timestamp@) && raw@
            == row.timestamp@,
        ParseError::MalformedTime { raw } => valid_timestamp_str(row.timestamp@)
            && !valid_time_str(row.time@) && raw@ == row.time@,
        ParseError::MalformedPrice { raw } => valid_timestamp_str(row.timestamp@)
            && valid_time_str(row.time@) && !valid_price_str(row.price@) && raw@ == row.price@,
    }
}

/// Parses a `YYYY-MM-DD HH:MM:SS+HHMM` timestamp into seconds since the
/// Unix epoch; `None` exactly on malformed text.
pub fn parse_timestamp(s: &str) -> (r: Option<i64>)
    ensures
        r is Some <==> valid_timestamp_str(s@),
        r is Some ==> r->Some_0 as int == timestamp_utc_secs(s@) && INSTANT_SECS_MIN <= r->Some_0
            <= INSTANT_SECS_MAX,
{
    if s.unicode_len() != 24 {
        return None;
    }
    let y0 = match char_digit(s.get_char(0)) {
        Some(d) => d,
        None => {
            return None;
        },
    };
    let y1 = match char_digit(s.get_char(1)) {
        Some(d) => d,
        None => {
            return None;
        },
    };
    let y2 = match char_digit(s.get_char(2)) {
        Some(d) => d,
        None => {
            return None;
        },
    };
    let y3 = match char_digit(s.get_char(3)) {
        Some(d) => d,
        None => {
            return None;
        },
    };
    if s.get_char(4) != '-' {
        return None;
    }
    let m0 = match char_digit(s.get_char(5)) {
        Some(d) => d,
        None => {
            return None;
        },
    };
    let m1 = match char_digit(s.get_char(6)) {
        Some(d) => d,
        None => {
            return None;
        },
    };
    if s.get_char(7) != '-' {
        return None;
    }
    let d0 = match char_digit(s.get_char(8)) {
        Some(d) => d,
        None => {
            return None;
        },
    };
    let d1 = match char_digit(s.get_char(9)) {
        Some(d) => d,
        None => {
            return None;
        },
    };
    if s.get_char(10) != ' ' {
        return None;
    }
    let h0 = match char_digit(s.get_char(11)) {
        Some(d) => d,
        None => {
            return None;
        },
    };
    let h1 = match char_digit(s.get_char(12)) {
        Some(d) => d,
        None => {
            return None;
        },
    };
    if s.get_char(13) != ':' {
        return None;
    }
    let n0 = match char_digit(s.get_char(14)) {
        Some(d) => d,
        None => {
            return None;
        },
    };
    let n1 = match char_digit(s.get_char(15)) {
        Some(d) => d,
        None => {
            return None;
        },
    };
    if s.get_char(16) != ':' {
        return None;
    }
    let s0 = match char_digit(s.get_char(17)) {
        Some(d) => d,
        None => {
            return None;
        },
    };
    let s1 = match char_digit(s.get_char(18)) {
        Some(d) => d,
        None => {
            return None;
        },
    };
    let sign = s.get_char(19);
    if sign != '+' && sign != '-' {
        return None;
    }
    let o0 = match char_digit(s.get_char(20)) {
        Some(d) => d,
        None => {
            return None;
        },
    };
    let o1 = match char_digit(s.get_char(21)) {
        Some(d) => d,
        None => {
            return None;
        },
    };
    let o2 = match char_digit(s.get_char(22)) {
        Some(d) => d,
        None => {
            return None;
        },
    };
    let o3 = match char_digit(s.get_char(23)) {
        Some(d) => d,
        None => {
            return None;
        },
    };
    let year: u16 = y0 as u16 * 1000 + y1 as u16 * 100 + y2 as u16 * 10 + y3 as u16;
    let month: u8 = m0 * 10 + m1;
    let day: u8 = d0 * 10 + d1;
    let hour: u8 = h0 * 10 + h1;
    let minute: u8 = n0 * 10 + n1;
    let second: u8 = s0 * 10 + s1;
    let off_hour: u8 = o0 * 10 + o1;
    let off_min: u8 = o2 * 10 + o3;
    if month < 1 || month > 12 {
        return None;
    }
    let dim = month_length(year as i64, month);
    if day < 1 || day > dim {
        return None;
    }
    if hour > 23 || minute > 59 || second > 59 || off_hour > 23 || off_min > 59 {
        return None;
    }
    let days = civil_to_days(year as i64, month, day);
    proof {
        crate::calendar::lemma_year_start_bounds(year as int);
        crate::calendar::lemma_month_start_mono(year as int, 1, month as int);
    }
    let off: i64 = off_hour as i64 * 3600 + off_min as i64 * 60;
    let signed_off: i64 = if sign == '+' {
        off
    } else {
        -off
    };
    let secs: i64 = days * 86400 + hour as i64 * 3600 + minute as i64 * 60 + second as i64
        - signed_off;
    Some(secs)
}

/// Parses one raw row into a reading. Succeeds exactly when all three parsed
/// fields are well formed; otherwise reports the first malformed field in
/// column order, carrying its text.
pub fn parse(row: &RawRow) -> (r: Result<Reading, ParseError>)
    ensures
        r is Ok <==> row_valid(*row),
        r is Ok ==> r->Ok_0 == reading_of_row(*row) && r->Ok_0.wf(),
        r is Err ==> parse_error_matches(*row, r->Err_0),
{
    let secs = match parse_timestamp(row.timestamp.as_str()) {
        Some(v) => v,
        None => {
            return Err(ParseError::MalformedTimestamp { raw: row.timestamp.clone() });
        },
    };
    let tod = match parse_time_of_day(row.time.as_str()) {
        Some(t) => t,
        None => {
            return Err(ParseError::MalformedTime { raw: row.time.clone() });
        },
    };
    let price = match parse_price(row.price.as_str()) {
        Some(p) => p,
        None => {
            return Err(ParseError::MalformedPrice { raw: row.price.clone() });
        },
    };
    Ok(Reading { instant: UtcInstant { secs }, time_of_day: tod, price })
}

} // verus!

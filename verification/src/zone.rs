//! The timezone normalizer: a UTC-anchored reading expressed as civil time in
//! a named IANA timezone. Only the offset lookup itself is delegated to the
//! timezone crates; applying the offset and deriving the civil date, the
//! weekday and the second-of-day is verified calendar arithmetic.
//!
//! Converting a UTC instant to civil time is total: an instant near a
//! "spring-forward" gap simply carries the offset in force at that instant,
//! so it localizes to a single civil time, and an instant during a
//! "fall-back" overlap carries exactly one of the two offsets — the one the
//! timezone database assigns to that absolute instant — on every run.

use vstd::prelude::*;
use chrono::Offset;
use chrono::TimeZone;
use crate::calendar::{civil_of_days, days_to_civil, spec_weekday_of_days, weekday_from_days};
use crate::price::PriceMicro;
use crate::reading::{Reading, UtcInstant, INSTANT_SECS_MAX, INSTANT_SECS_MIN};
use crate::time_of_day::TimeOfDay;

verus! {

/// Whether the IANA timezone database compiled into the timezone crate knows
/// a zone of this name.
pub uninterp spec fn zone_known(name: Seq<char>) -> bool;

/// The UTC offset, in seconds, that the timezone database gives for the
/// named zone at the given instant (seconds since the Unix epoch).
pub uninterp spec fn zone_offset_secs(name: Seq<char>, utc_secs: int) -> int;

/// Relies on chrono_tz's `Tz::from_str`: a pure lookup of the name in the
/// compiled-in IANA table, so success depends on the name alone.
#[verifier::external_body]
pub fn zone_is_known(name: &str) -> (r: bool)
    ensures
        r == zone_known(name@),
{
    name.parse::<chrono_tz::Tz>().is_ok()
}

/// Relies on chrono_tz's `Tz::from_str` (a pure table lookup) and
/// `TimeZone::offset_from_utc_datetime` (every instant falls in exactly one
/// timespan of the static table, so the offset is a pure function of the
/// zone name and the instant), and on chrono's `DateTime::from_timestamp`
/// (defined on far more than the required range) and `Offset::fix`
/// (a `FixedOffset` is strictly smaller than one day in magnitude).
#[verifier::external_body]
pub fn utc_offset_secs(name: &str, utc_secs: i64) -> (r: Option<i32>)
    requires
        INSTANT_SECS_MIN <= utc_secs <= INSTANT_SECS_MAX,
    ensures
        r is Some <==> zone_known(name@),
        r is Some ==> r->Some_0 as int == zone_offset_secs(name@, utc_secs as int) && -86400
            < r->Some_0 < 86400,
{
    let tz: chrono_tz::Tz = match name.parse() {
        Ok(t) => t,
        Err(_) => {
            return None;
        },
    };
    let dt = chrono::DateTime::from_timestamp(utc_secs, 0).unwrap();
    let offset = tz.offset_from_utc_datetime(&dt.naive_utc());
    Some(offset.fix().local_minus_utc())
}

/// A civil (wall-clock) date and time, without a zone.
#[derive(PartialEq, Eq, Structural, Clone, Copy, Debug)]
pub struct CivilDateTime {
    pub year: i64,
    pub month: u8,
    pub day: u8,
    pub hour: u8,
    pub minute: u8,
    pub second: u8,
}

/// A reading together with its civil time in the display timezone and the
/// offset and weekday that localization derived. Never mutated once created.
#[derive(PartialEq, Eq, Structural, Clone, Copy, Debug)]
pub struct LocalizedReading {
    pub instant: UtcInstant,
    pub offset_seconds: i32,
    pub local: CivilDateTime,
    pub weekday: u8,
    pub time_of_day: TimeOfDay,
    pub price: PriceMicro,
}

impl LocalizedReading {
    /// Every derived field lies in its calendar range.
    pub open spec fn wf(self) -> bool {
        &&& self.instant.wf()
        &&& self.time_of_day.wf()
        &&& self.price.wf()
        &&& 1 <= self.local.month <= 12
        &&& 1 <= self.local.day <= 31
        &&& self.local.hour < 24
        &&& self.local.minute < 60
        &&& self.local.second < 60
        &&& self.weekday < 7
    }
}

/// The requested timezone name is not in the timezone database.
#[derive(PartialEq, Eq, Structural, Clone, Copy, Debug)]
pub struct UnknownTimezone {}

/// The localization of a reading into the named zone: the civil date and
/// time, weekday and offset at the reading's instant.
pub open spec fn localized_of(r: Reading, zone: Seq<char>) -> LocalizedReading {
    let off = zone_offset_secs(zone, r.instant.secs as int);
    let local = r.instant.secs + off;
    let days = local / 86400;
    let sod = local % 86400;
    let c = civil_of_days(days);
    LocalizedReading {
        instant: r.instant,
        offset_seconds: off as i32,
        local: CivilDateTime {
            year: c.0 as i64,
            month: c.1 as u8,
            day: c.2 as u8,
            hour: (sod / 3600) as u8,
            minute: ((sod / 60) % 60) as u8,
            second: (sod % 60) as u8,
        },
        weekday: spec_weekday_of_days(days) as u8,
        time_of_day: r.time_of_day,
        price: r.price,
    }
}

/// Localizes a reading into the named timezone. Succeeds exactly when the
/// zone name is known; valid instants have no other failure path.
pub fn localize(reading: &Reading, zone: &str) -> (r: Result<LocalizedReading, UnknownTimezone>)
    requires
        reading.wf(),
    ensures
        r is Ok <==> zone_known(zone@),
        r is Ok ==> r->Ok_0 == localized_of(*reading, zone@) && r->Ok_0.wf(),
{
    let off = match utc_offset_secs(zone, reading.instant.secs) {
        Some(o) => o,
        None => {
            return Err(UnknownTimezone {});
        },
    };
    let local: i64 = reading.instant.secs + off as i64;
    let days: i64 = local.checked_div_euclid(86400).unwrap();
    let sod64: i64 = local.checked_rem_euclid(86400).unwrap();
    proof {
        vstd::arithmetic::div_mod::lemma_fundamental_div_mod(local as int, 86400);
    }
    let sod: u32 = sod64 as u32;
    let civil = days_to_civil(days);
    let wd = weekday_from_days(days);
    let lr = LocalizedReading {
        instant: reading.instant,
        offset_seconds: off,
        local: CivilDateTime {
            year: civil.0,
            month: civil.1,
            day: civil.2,
            hour: (sod / 3600) as u8,
            minute: ((sod / 60) % 60) as u8,
            second: (sod % 60) as u8,
        },
        weekday: wd,
        time_of_day: reading.time_of_day,
        price: reading.price,
    };
    Ok(lr)
}

} // verus!

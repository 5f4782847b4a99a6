//! The bucketing engine: pure, total key functions from a localized reading
//! to its partition key under a requested scheme.

use vstd::prelude::*;
use crate::time_of_day::TimeOfDay;
use crate::zone::LocalizedReading;

verus! {

/// The two-way calendar partition of days: a proper tagged enumeration, so
/// the two classes are disjoint and cover every reading by construction.
#[derive(PartialEq, Eq, Structural, Clone, Copy, Debug)]
pub enum DayClass {
    Weekday,
    Weekend,
}

/// Which partition the aggregator is asked for.
#[derive(PartialEq, Eq, Structural, Clone, Copy, Debug)]
pub enum KeyScheme {
    WeekendClass,
    MonthTime,
}

/// The partition key of one bucket.
#[derive(PartialEq, Eq, Structural, Clone, Copy, Debug)]
pub enum BucketKey {
    WeekendOrWeekday(DayClass),
    MonthTime(u8, TimeOfDay),
}

impl BucketKey {
    /// The key's fields lie in their calendar ranges.
    pub open spec fn wf(self) -> bool {
        match self {
            BucketKey::WeekendOrWeekday(_) => true,
            BucketKey::MonthTime(m, t) => 1 <= m <= 12 && t.wf(),
        }
    }

    /// The scheme a key belongs to.
    pub open spec fn scheme(self) -> KeyScheme {
        match self {
            BucketKey::WeekendOrWeekday(_) => KeyScheme::WeekendClass,
            BucketKey::MonthTime(_, _) => KeyScheme::MonthTime,
        }
    }
}

/// The day class of a weekday index (0 is Sunday through 6 is Saturday).
pub open spec fn spec_day_class(weekday: int) -> DayClass {
    if weekday == 0 || weekday == 6 {
        DayClass::Weekend
    } else {
        DayClass::Weekday
    }
}

/// The key a reading maps to under a scheme: a pure, total function, so
/// every reading belongs to exactly one bucket of the scheme.
pub open spec fn key_of(r: LocalizedReading, scheme: KeyScheme) -> BucketKey {
    match scheme {
        KeyScheme::WeekendClass => BucketKey::WeekendOrWeekday(spec_day_class(r.weekday as int)),
        KeyScheme::MonthTime => BucketKey::MonthTime(r.local.month, r.time_of_day),
    }
}

/// The sort code of a key: weekday sorts before weekend, and month-time keys
/// sort by month first, then by time of day ascending.
pub open spec fn key_code(k: BucketKey) -> int {
    match k {
        BucketKey::WeekendOrWeekday(DayClass::Weekday) => 0,
        BucketKey::WeekendOrWeekday(DayClass::Weekend) => 1,
        BucketKey::MonthTime(m, t) => m * 1440 + t.hour * 60 + t.minute,
    }
}

/// Within one scheme the sort code determines the key.
pub proof fn lemma_key_code_injective(k1: BucketKey, k2: BucketKey)
    requires
        k1.wf(),
        k2.wf(),
        k1.scheme() == k2.scheme(),
        key_code(k1) == key_code(k2),
    ensures
        k1 == k2,
{
}

/// Computes the key a reading maps to under a scheme.
pub fn key_for(reading: &LocalizedReading, scheme: KeyScheme) -> (k: BucketKey)
    ensures
        k == key_of(*reading, scheme),
        k.scheme() == scheme,
        reading.wf() ==> k.wf(),
{
    match scheme {
        KeyScheme::WeekendClass => {
            if reading.weekday == 0 || reading.weekday == 6 {
                BucketKey::WeekendOrWeekday(DayClass::Weekend)
            } else {
                BucketKey::WeekendOrWeekday(DayClass::Weekday)
            }
        },
        KeyScheme::MonthTime => BucketKey::MonthTime(reading.local.month, reading.time_of_day),
    }
}

/// Computes the sort code of a well-formed key.
pub fn key_code_of(k: &BucketKey) -> (c: u32)
    requires
        k.wf(),
    ensures
        c as int == key_code(*k),
{
    match k {
        BucketKey::WeekendOrWeekday(DayClass::Weekday) => 0,
        BucketKey::WeekendOrWeekday(DayClass::Weekend) => 1,
        BucketKey::MonthTime(m, t) => (*m as u32) * 1440 + (t.hour as u32) * 60 + t.minute as u32,
    }
}

} // verus!

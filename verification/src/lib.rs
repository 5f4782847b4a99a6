//! A time-series normalization and aggregation engine for electricity-price
//! readings: parsing raw rows, localizing UTC instants into a named timezone,
//! bucketing readings by calendar-derived keys, and computing mean prices per
//! bucket in a deterministic order.

pub mod digits;
pub mod calendar;
pub mod time_of_day;
pub mod price;
pub mod reading;
pub mod zone;
pub mod keys;
pub mod aggregate;
pub mod pipeline;

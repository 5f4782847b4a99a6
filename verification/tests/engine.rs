use price_stats::aggregate::{aggregate, AggregateRow};
use price_stats::keys::{key_for, BucketKey, DayClass, KeyScheme};
use price_stats::pipeline::{run, PipelineError};
use price_stats::price::{parse_price, PriceMicro};
use price_stats::reading::{parse, parse_timestamp, ParseError, RawRow};
use price_stats::time_of_day::{format_time_of_day, parse_time_of_day, TimeOfDay};
use price_stats::zone::{localize, zone_is_known};

fn row(ts: &str, time: &str, price: &str) -> RawRow {
    RawRow {
        timestamp: ts.to_string(),
        time: time.to_string(),
        aux1: "A".to_string(),
        aux2: "East".to_string(),
        price: price.to_string(),
    }
}

#[test]
fn time_of_day_round_trip() {
    for s in ["00:00", "07:05", "13:30", "23:59"] {
        let t = parse_time_of_day(s).unwrap();
        assert_eq!(format_time_of_day(&t), s);
    }
}

#[test]
fn time_of_day_rejects_malformed() {
    assert!(parse_time_of_day("24:00").is_none());
    assert!(parse_time_of_day("12:60").is_none());
    assert!(parse_time_of_day("1230").is_none());
    assert!(parse_time_of_day("12-30").is_none());
    assert!(parse_time_of_day("").is_none());
}

#[test]
fn price_parses_exactly() {
    assert_eq!(parse_price("10.5").unwrap(), PriceMicro { micro: 10_500_000 });
    assert_eq!(parse_price("-0.25").unwrap(), PriceMicro { micro: -250_000 });
    assert_eq!(parse_price("7").unwrap(), PriceMicro { micro: 7_000_000 });
    assert_eq!(parse_price("0.000001").unwrap(), PriceMicro { micro: 1 });
    assert_eq!(parse_price("-31.999999").unwrap(), PriceMicro { micro: -31_999_999 });
}

#[test]
fn price_rejects_malformed() {
    assert!(parse_price("").is_none());
    assert!(parse_price("-").is_none());
    assert!(parse_price("not-a-number").is_none());
    assert!(parse_price("1.").is_none());
    assert!(parse_price(".5").is_none());
    assert!(parse_price("12345678901").is_none());
    assert!(parse_price("1.1234567").is_none());
    assert!(parse_price("1.2.3").is_none());
}

#[test]
fn timestamp_epoch() {
    assert_eq!(parse_timestamp("1970-01-01 00:00:00+0000").unwrap(), 0);
}

#[test]
fn timestamp_known_instants() {
    assert_eq!(parse_timestamp("2023-03-04 00:30:00+0000").unwrap(), 1_677_889_800);
    assert_eq!(parse_timestamp("2023-03-05 00:30:00+0000").unwrap(), 1_677_976_200);
    // The same instant written with a +01:00 offset.
    assert_eq!(parse_timestamp("2023-03-04 01:30:00+0100").unwrap(), 1_677_889_800);
    // A negative offset adds to the UTC value.
    assert_eq!(parse_timestamp("2023-03-04 00:30:00-0100").unwrap(), 1_677_893_400);
    // A leap day of a leap year.
    assert_eq!(parse_timestamp("2024-02-29 12:00:00+0000").unwrap(), 1_709_208_000);
}

#[test]
fn timestamp_rejects_malformed() {
    assert!(parse_timestamp("2023-02-29 00:00:00+0000").is_none());
    assert!(parse_timestamp("2023-13-01 00:00:00+0000").is_none());
    assert!(parse_timestamp("2023-00-01 00:00:00+0000").is_none());
    assert!(parse_timestamp("2023-01-32 00:00:00+0000").is_none());
    assert!(parse_timestamp("2023-01-01 24:00:00+0000").is_none());
    assert!(parse_timestamp("2023-01-01T00:00:00+0000").is_none());
    assert!(parse_timestamp("2023-01-01 00:00:00+2500").is_none());
    assert!(parse_timestamp("2023-01-01 00:00:00").is_none());
}

#[test]
fn parse_reports_first_malformed_field() {
    let bad_ts = parse(&row("2023-03-04T00:30:00", "00:30", "10.5")).unwrap_err();
    assert!(matches!(bad_ts, ParseError::MalformedTimestamp { .. }));
    let bad_time = parse(&row("2023-03-04 00:30:00+0000", "0:30", "10.5")).unwrap_err();
    assert!(matches!(bad_time, ParseError::MalformedTime { .. }));
    let bad_price = parse(&row("2023-03-04 00:30:00+0000", "00:30", "ten")).unwrap_err();
    assert!(matches!(bad_price, ParseError::MalformedPrice { .. }));
}

#[test]
fn parse_carries_offending_text() {
    match parse(&row("2023-03-04 00:30:00+0000", "00:30", "not-a-number")) {
        Err(ParseError::MalformedPrice { raw }) => assert_eq!(raw, "not-a-number"),
        other => panic!("expected a malformed price, got {:?}", other),
    }
}

#[test]
fn localize_utc_keeps_civil_time() {
    let reading = parse(&row("2023-03-04 13:30:00+0000", "13:30", "10.5")).unwrap();
    let lr = localize(&reading, "UTC").unwrap();
    assert_eq!(lr.offset_seconds, 0);
    assert_eq!(lr.local.year, 2023);
    assert_eq!(lr.local.month, 3);
    assert_eq!(lr.local.day, 4);
    assert_eq!(lr.local.hour, 13);
    assert_eq!(lr.local.minute, 30);
    assert_eq!(lr.local.second, 0);
    // 2023-03-04 is a Saturday (weekday 6 counting Sunday as 0).
    assert_eq!(lr.weekday, 6);
}

#[test]
fn localize_applies_summer_offset() {
    // 2023-07-01 12:00 UTC is 13:00 in London (BST, offset 3600): the call
    // into the timezone database must change the civil time.
    let reading = parse(&row("2023-07-01 12:00:00+0000", "12:00", "1")).unwrap();
    let lr = localize(&reading, "Europe/London").unwrap();
    assert_eq!(lr.offset_seconds, 3600);
    assert_eq!(lr.local.hour, 13);
}

#[test]
fn localize_spring_forward_gap_is_single_valued() {
    // London springs forward at 2023-03-26 01:00 UTC: civil times between
    // 01:00 and 02:00 do not exist that night. A UTC instant just before
    // carries offset 0, one just after carries 3600 and lands past the gap.
    let before = parse(&row("2023-03-26 00:30:00+0000", "00:30", "1")).unwrap();
    let lb = localize(&before, "Europe/London").unwrap();
    assert_eq!(lb.offset_seconds, 0);
    assert_eq!((lb.local.hour, lb.local.minute), (0, 30));
    let after = parse(&row("2023-03-26 01:30:00+0000", "01:30", "1")).unwrap();
    let la = localize(&after, "Europe/London").unwrap();
    assert_eq!(la.offset_seconds, 3600);
    assert_eq!((la.local.hour, la.local.minute), (2, 30));
}

#[test]
fn localize_fall_back_is_deterministic() {
    // London falls back at 2023-10-29 01:00 UTC: the civil hour from 01:00
    // to 02:00 happens twice. Each UTC instant still localizes to exactly
    // one offset, the one the database assigns to that absolute instant.
    let first = parse(&row("2023-10-29 00:30:00+0000", "00:30", "1")).unwrap();
    let lf = localize(&first, "Europe/London").unwrap();
    assert_eq!(lf.offset_seconds, 3600);
    assert_eq!((lf.local.hour, lf.local.minute), (1, 30));
    let second = parse(&row("2023-10-29 01:30:00+0000", "01:30", "1")).unwrap();
    let ls = localize(&second, "Europe/London").unwrap();
    assert_eq!(ls.offset_seconds, 0);
    assert_eq!((ls.local.hour, ls.local.minute), (1, 30));
    // Running the same localization again gives the same answer.
    let again = localize(&second, "Europe/London").unwrap();
    assert_eq!(ls, again);
}

#[test]
fn unknown_zone_is_reported() {
    assert!(!zone_is_known("Nowhere/Special"));
    let reading = parse(&row("2023-03-04 00:30:00+0000", "00:30", "1")).unwrap();
    assert!(localize(&reading, "Nowhere/Special").is_err());
    let rows = vec![row("2023-03-04 00:30:00+0000", "00:30", "10.5")];
    let out = run(&rows, "Nowhere/Special", &vec![KeyScheme::WeekendClass]);
    assert!(matches!(out, Err(PipelineError::UnknownTimezone)));
}

#[test]
fn weekend_scenario_single_bucket() {
    // One Saturday and one Sunday reading: a single Weekend row with the
    // mean of the two prices, and no Weekday row.
    let rows = vec![
        row("2023-03-04 00:30:00+0000", "00:30", "10.5"),
        row("2023-03-05 00:30:00+0000", "00:30", "20.5"),
    ];
    let out = run(&rows, "UTC", &vec![KeyScheme::WeekendClass]).unwrap();
    assert_eq!(out.len(), 1);
    let (scheme, agg) = &out[0];
    assert_eq!(*scheme, KeyScheme::WeekendClass);
    assert_eq!(agg.len(), 1);
    assert_eq!(
        agg[0],
        AggregateRow {
            key: BucketKey::WeekendOrWeekday(DayClass::Weekend),
            mean: PriceMicro { micro: 15_500_000 },
            sum_micro: 31_000_000,
            count: 2,
        }
    );
}

#[test]
fn malformed_price_scenario_fails_fast() {
    let rows = vec![row("2023-03-04 00:30:00+0000", "00:30", "not-a-number")];
    let out = run(&rows, "UTC", &vec![KeyScheme::WeekendClass]);
    match out {
        Err(PipelineError::RowFailed { index, cause }) => {
            assert_eq!(index, 0);
            assert!(matches!(cause, ParseError::MalformedPrice { .. }));
        },
        other => panic!("expected the run to fail on row 0, got {:?}", other),
    }
}

#[test]
fn fail_fast_reports_first_bad_row() {
    let rows = vec![
        row("2023-03-04 00:30:00+0000", "00:30", "10.5"),
        row("2023-03-04 01:00:00+0000", "01:00", "bad"),
        row("garbage", "01:30", "also-bad"),
    ];
    let out = run(&rows, "UTC", &vec![KeyScheme::WeekendClass]);
    match out {
        Err(PipelineError::RowFailed { index, cause }) => {
            assert_eq!(index, 1);
            assert!(matches!(cause, ParseError::MalformedPrice { .. }));
        },
        other => panic!("expected the run to fail on row 1, got {:?}", other),
    }
}

#[test]
fn weekend_and_weekday_counts_cover_all_rows() {
    let rows = vec![
        row("2023-03-03 00:30:00+0000", "00:30", "1"),  // Friday
        row("2023-03-04 00:30:00+0000", "00:30", "2"),  // Saturday
        row("2023-03-05 00:30:00+0000", "00:30", "3"),  // Sunday
        row("2023-03-06 00:30:00+0000", "00:30", "4"),  // Monday
    ];
    let out = run(&rows, "UTC", &vec![KeyScheme::WeekendClass]).unwrap();
    let agg = &out[0].1;
    assert_eq!(agg.len(), 2);
    assert_eq!(agg[0].key, BucketKey::WeekendOrWeekday(DayClass::Weekday));
    assert_eq!(agg[1].key, BucketKey::WeekendOrWeekday(DayClass::Weekend));
    assert_eq!(agg[0].count + agg[1].count, rows.len());
    assert_eq!(agg[0].mean, PriceMicro { micro: 2_500_000 });
    assert_eq!(agg[1].mean, PriceMicro { micro: 2_500_000 });
}

#[test]
fn month_time_buckets_sort_by_month_then_time() {
    let rows = vec![
        row("2023-04-01 13:00:00+0000", "13:00", "4"),
        row("2023-03-04 13:00:00+0000", "13:00", "1"),
        row("2023-03-04 00:30:00+0000", "00:30", "2"),
        row("2023-04-01 00:30:00+0000", "00:30", "3"),
    ];
    let out = run(&rows, "UTC", &vec![KeyScheme::MonthTime]).unwrap();
    let agg = &out[0].1;
    let keys: Vec<BucketKey> = agg.iter().map(|r| r.key).collect();
    assert_eq!(
        keys,
        vec![
            BucketKey::MonthTime(3, TimeOfDay { hour: 0, minute: 30 }),
            BucketKey::MonthTime(3, TimeOfDay { hour: 13, minute: 0 }),
            BucketKey::MonthTime(4, TimeOfDay { hour: 0, minute: 30 }),
            BucketKey::MonthTime(4, TimeOfDay { hour: 13, minute: 0 }),
        ]
    );
}

#[test]
fn aggregate_is_deterministic_across_input_orders() {
    let a = vec![
        row("2023-03-04 00:30:00+0000", "00:30", "10.5"),
        row("2023-03-05 00:30:00+0000", "00:30", "20.5"),
        row("2023-03-06 00:30:00+0000", "00:30", "-3.25"),
        row("2023-04-01 13:00:00+0000", "13:00", "7"),
    ];
    let mut b = a.clone();
    b.reverse();
    for scheme in [KeyScheme::WeekendClass, KeyScheme::MonthTime] {
        let out_a = run(&a, "UTC", &vec![scheme]).unwrap();
        let out_b = run(&b, "UTC", &vec![scheme]).unwrap();
        assert_eq!(out_a[0].1, out_b[0].1);
        // And a second run on the same input reproduces the first.
        let out_a2 = run(&a, "UTC", &vec![scheme]).unwrap();
        assert_eq!(out_a[0].1, out_a2[0].1);
    }
}

#[test]
fn mean_is_truncated_toward_zero() {
    let rows = vec![
        row("2023-03-04 00:30:00+0000", "00:30", "1"),
        row("2023-03-04 01:00:00+0000", "00:30", "1"),
        row("2023-03-04 01:30:00+0000", "00:30", "2"),
    ];
    let out = run(&rows, "UTC", &vec![KeyScheme::WeekendClass]).unwrap();
    assert_eq!(out[0].1[0].mean, PriceMicro { micro: 1_333_333 });
    let neg = vec![
        row("2023-03-04 00:30:00+0000", "00:30", "-1"),
        row("2023-03-04 01:00:00+0000", "00:30", "-1"),
        row("2023-03-04 01:30:00+0000", "00:30", "-2"),
    ];
    let out = run(&neg, "UTC", &vec![KeyScheme::WeekendClass]).unwrap();
    assert_eq!(out[0].1[0].mean, PriceMicro { micro: -1_333_333 });
}

#[test]
fn mean_matches_float_within_tolerance() {
    let prices = ["10.5", "20.5", "-3.25", "0.007", "99.999999"];
    let mut rows = Vec::new();
    for (i, p) in prices.iter().enumerate() {
        let ts = format!("2023-03-04 0{}:00:00+0000", i);
        rows.push(row(&ts, "00:30", p));
    }
    let out = run(&rows, "UTC", &vec![KeyScheme::WeekendClass]).unwrap();
    let agg = &out[0].1;
    assert_eq!(agg.len(), 1);
    let computed = agg[0].mean.micro as f64 / 1e6;
    let expected: f64 = prices.iter().map(|p| p.parse::<f64>().unwrap()).sum::<f64>()
        / prices.len() as f64;
    assert!((computed - expected).abs() <= 1e-6 * expected.abs().max(1.0));
}

#[test]
fn negative_prices_are_accepted() {
    let rows = vec![
        row("2023-03-04 00:30:00+0000", "00:30", "-10.5"),
        row("2023-03-05 00:30:00+0000", "00:30", "-20.5"),
    ];
    let out = run(&rows, "UTC", &vec![KeyScheme::WeekendClass]).unwrap();
    assert_eq!(out[0].1[0].mean, PriceMicro { micro: -15_500_000 });
}

#[test]
fn both_schemes_in_one_run() {
    let rows = vec![
        row("2023-03-04 00:30:00+0000", "00:30", "10.5"),
        row("2023-03-05 00:30:00+0000", "00:30", "20.5"),
    ];
    let schemes = vec![KeyScheme::WeekendClass, KeyScheme::MonthTime];
    let out = run(&rows, "UTC", &schemes).unwrap();
    assert_eq!(out.len(), 2);
    assert_eq!(out[0].0, KeyScheme::WeekendClass);
    assert_eq!(out[1].0, KeyScheme::MonthTime);
    assert_eq!(out[0].1.len(), 1);
    // Both readings share the 00:30 time-of-day and the month, so one
    // month-time bucket as well.
    assert_eq!(out[1].1.len(), 1);
    assert_eq!(out[1].1[0].key, BucketKey::MonthTime(3, TimeOfDay { hour: 0, minute: 30 }));
}

#[test]
fn empty_input_gives_empty_output() {
    let rows: Vec<RawRow> = Vec::new();
    let out = run(&rows, "UTC", &vec![KeyScheme::WeekendClass, KeyScheme::MonthTime]).unwrap();
    assert_eq!(out.len(), 2);
    assert!(out[0].1.is_empty());
    assert!(out[1].1.is_empty());
}

#[test]
fn key_for_maps_weekday_and_weekend() {
    let sat = parse(&row("2023-03-04 00:30:00+0000", "00:30", "1")).unwrap();
    let mon = parse(&row("2023-03-06 00:30:00+0000", "00:30", "1")).unwrap();
    let lsat = localize(&sat, "UTC").unwrap();
    let lmon = localize(&mon, "UTC").unwrap();
    assert_eq!(
        key_for(&lsat, KeyScheme::WeekendClass),
        BucketKey::WeekendOrWeekday(DayClass::Weekend)
    );
    assert_eq!(
        key_for(&lmon, KeyScheme::WeekendClass),
        BucketKey::WeekendOrWeekday(DayClass::Weekday)
    );
    assert_eq!(
        key_for(&lsat, KeyScheme::MonthTime),
        BucketKey::MonthTime(3, TimeOfDay { hour: 0, minute: 30 })
    );
}

#[test]
fn aggregate_keeps_all_prices_per_bucket() {
    // Duplicate readings are valid and both count.
    let sat = parse(&row("2023-03-04 00:30:00+0000", "00:30", "10.5")).unwrap();
    let lsat = localize(&sat, "UTC").unwrap();
    let readings = vec![lsat, lsat, lsat];
    let agg = aggregate(&readings, KeyScheme::WeekendClass);
    assert_eq!(agg.len(), 1);
    assert_eq!(agg[0].count, 3);
    assert_eq!(agg[0].sum_micro, 31_500_000);
    assert_eq!(agg[0].mean, PriceMicro { micro: 10_500_000 });
}

#[test]
fn timezone_changes_the_bucket() {
    // 23:30 UTC on a Friday is already Saturday in a zone east of UTC.
    let fri_late = parse(&row("2023-03-03 23:30:00+0000", "23:30", "1")).unwrap();
    let utc = localize(&fri_late, "UTC").unwrap();
    let tokyo = localize(&fri_late, "Asia/Tokyo").unwrap();
    assert_eq!(
        key_for(&utc, KeyScheme::WeekendClass),
        BucketKey::WeekendOrWeekday(DayClass::Weekday)
    );
    assert_eq!(
        key_for(&tokyo, KeyScheme::WeekendClass),
        BucketKey::WeekendOrWeekday(DayClass::Weekend)
    );
    assert_eq!(tokyo.local.day, 4);
    assert_eq!(tokyo.local.hour, 8);
}

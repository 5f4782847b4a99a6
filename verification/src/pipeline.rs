//! The pipeline driver: streams raw rows through parsing, localization and,
//! per requested scheme, bucketing and aggregation. The pipeline fails fast:
//! the first malformed row aborts the run with its index and cause, so that
//! corrupted upstream data never skews a computed mean.

use vstd::prelude::*;
use vstd::pervasive::unreached;
use crate::aggregate::{aggregate, aggregate_post, all_wf, AggregateRow};
use crate::keys::KeyScheme;
use crate::reading::{parse, parse_error_matches, reading_of_row, row_valid, ParseError, RawRow};
use crate::zone::{localize, localized_of, zone_is_known, zone_known, LocalizedReading};

verus! {

/// Why a pipeline run failed: the configured timezone is unknown, or a row
/// could not be parsed.
#[derive(Debug)]
pub enum PipelineError {
    UnknownTimezone,
    RowFailed { index: usize, cause: ParseError },
}

/// The localized readings denoted by a sequence of valid rows.
pub open spec fn localized_rows(rows: Seq<RawRow>, zone: Seq<char>) -> Seq<LocalizedReading> {
    Seq::new(rows.len(), |i: int| localized_of(reading_of_row(rows[i]), zone))
}

/// Runs the whole pipeline: parses every row, localizes it into the target
/// zone, and aggregates the localized readings once per requested scheme.
/// Succeeds exactly when the zone is known and every row parses; fails with
/// `UnknownTimezone` on a bad zone name, and with `RowFailed` carrying the
/// index and cause of the first malformed row otherwise.
pub fn run(rows: &Vec<RawRow>, target_zone: &str, schemes: &Vec<KeyScheme>) -> (r: Result<
    Vec<(KeyScheme, Vec<AggregateRow>)>,
    PipelineError,
>)
    ensures
        match r {
            Result::Ok(out) => {
                &&& zone_known(target_zone@)
                &&& forall|j: int| 0 <= j < rows@.len() ==> row_valid(#[trigger] rows@[j])
                &&& out@.len() == schemes@.len()
                &&& forall|i: int|
                    0 <= i < schemes@.len() ==> (#[trigger] out@[i]).0 == schemes@[i]
                        && aggregate_post(
                        localized_rows(rows@, target_zone@),
                        schemes@[i],
                        out@[i].1@,
                    )
            },
            Result::Err(e) => match e {
                PipelineError::UnknownTimezone => !zone_known(target_zone@),
                PipelineError::RowFailed { index, cause } => {
                    &&& zone_known(target_zone@)
                    &&& index < rows@.len()
                    &&& !row_valid(rows@[index as int])
                    &&& forall|j: int| 0 <= j < index ==> row_valid(#[trigger] rows@[j])
                    &&& parse_error_matches(rows@[index as int], cause)
                },
            },
        },
        !zone_known(target_zone@) ==> r is Err,
        (zone_known(target_zone@) && (forall|j: int|
            0 <= j < rows@.len() ==> row_valid(#[trigger] rows@[j]))) ==> r is Ok,
{
    if !zone_is_known(target_zone) {
        return Err(PipelineError::UnknownTimezone);
    }
    let mut localized: Vec<LocalizedReading> = Vec::new();
    let mut idx: usize = 0;
    while idx < rows.len()
        invariant
            0 <= idx <= rows@.len(),
            zone_known(target_zone@),
            localized@.len() == idx,
            forall|j: int| 0 <= j < idx ==> row_valid(#[trigger] rows@[j]),
            forall|j: int|
                0 <= j < idx ==> #[trigger] localized@[j] == localized_of(
                    reading_of_row(rows@[j]),
                    target_zone@,
                ),
            all_wf(localized@),
        decreases rows@.len() - idx,
    {
        let row = &rows[idx];
        let rd = match parse(row) {
            Ok(rd) => rd,
            Err(e) => {
                return Err(PipelineError::RowFailed { index: idx, cause: e });
            },
        };
        let lr = match localize(&rd, target_zone) {
            Ok(lr) => lr,
            Err(_) => unreached(),
        };
        localized.push(lr);
        idx = idx + 1;
    }
    proof {
        assert(localized@ =~= localized_rows(rows@, target_zone@));
    }
    let mut out: Vec<(KeyScheme, Vec<AggregateRow>)> = Vec::new();
    let mut si: usize = 0;
    while si < schemes.len()
        invariant
            0 <= si <= schemes@.len(),
            out@.len() == si,
            zone_known(target_zone@),
            forall|j: int| 0 <= j < rows@.len() ==> row_valid(#[trigger] rows@[j]),
            all_wf(localized@),
            localized@ == localized_rows(rows@, target_zone@),
            forall|i: int|
                0 <= i < si ==> (#[trigger] out@[i]).0 == schemes@[i] && aggregate_post(
                    localized_rows(rows@, target_zone@),
                    schemes@[i],
                    out@[i].1@,
                ),
        decreases schemes@.len() - si,
    {
        let scheme = schemes[si];
        let rows_out = aggregate(&localized, scheme);
        out.push((scheme, rows_out));
        si = si + 1;
    }
    Ok(out)
}

} // verus!

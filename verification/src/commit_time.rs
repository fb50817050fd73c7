//! A commit's timestamp: seconds since the epoch plus the author's
//! time-zone offset in minutes, convertible to the text of the calendar
//! moment it names.
//!
//! The calendar arithmetic lives in the `chrono` crate; this module
//! validates the raw values and makes the call, so that an absurd offset
//! or an unrepresentable moment is a reported error, never a crash.

use vstd::prelude::*;

use crate::errors::BlameError;

verus! {

/// What chrono renders a fixed-offset moment as: a function of the offset
/// and the timestamp alone.
pub uninterp spec fn civil_time_text(offset_seconds: int, seconds: int) -> Seq<char>;

/// Relies on chrono's fixed-offset calendar: `FixedOffset::east_opt`
/// (which accepts exactly offsets strictly within one day),
/// `TimeZone::timestamp_opt` (no moment outside the representable range)
/// and the datetime's display form, which depends on the two values alone.
#[verifier::external_body]
fn civil_text(offset_seconds: i32, seconds: i64) -> (r: Option<String>)
    ensures
        !(-86400 < offset_seconds < 86400) ==> r is None,
        r is Some ==> r.unwrap()@ == civil_time_text(offset_seconds as int, seconds as int),
{
    let offset = chrono::FixedOffset::east_opt(offset_seconds)?;
    match chrono::TimeZone::timestamp_opt(&offset, seconds, 0) {
        chrono::LocalResult::Single(datetime) => Some(datetime.to_string()),
        chrono::LocalResult::Ambiguous(_, latest) => Some(latest.to_string()),
        chrono::LocalResult::None => None,
    }
}

/// Seconds since the Unix epoch, with the recorded time-zone offset.
#[derive(Clone, Copy, Debug, PartialEq, Eq, Structural)]
pub struct CommitTime {
    pub seconds: i64,
    pub offset_minutes: i64,
}

impl CommitTime {
    /// Wrap the two raw values.
    pub fn new(seconds: i64, offset_minutes: i64) -> (r: CommitTime)
        ensures
            r.seconds == seconds,
            r.offset_minutes == offset_minutes,
    {
        CommitTime { seconds, offset_minutes }
    }

    /// The epoch itself, in UTC: the placeholder before a commit is read.
    pub fn epoch() -> (r: CommitTime)
        ensures
            r.seconds == 0,
            r.offset_minutes == 0,
    {
        CommitTime { seconds: 0, offset_minutes: 0 }
    }

    /// The text of the moment this timestamp names, in its own time-zone
    /// offset.  An offset of a whole day or more is an invalid time zone;
    /// a moment outside the representable calendar range is out of range.
    pub fn to_date_time_text(&self) -> (r: Result<String, BlameError>)
        ensures
            !(-1440 < self.offset_minutes < 1440) ==> r == Err::<String, BlameError>(
                BlameError::InvalidTimeZone { offset_minutes: self.offset_minutes },
            ),
            r is Ok ==> r.unwrap()@ == civil_time_text(
                self.offset_minutes * 60,
                self.seconds as int,
            ),
            r is Err ==> (r == Err::<String, BlameError>(
                BlameError::InvalidTimeZone { offset_minutes: self.offset_minutes },
            ) || r == Err::<String, BlameError>(
                BlameError::TimeOutOfRange { seconds: self.seconds },
            )),
    {
        if !(-1440 < self.offset_minutes && self.offset_minutes < 1440) {
            return Err(BlameError::InvalidTimeZone { offset_minutes: self.offset_minutes });
        }
        let offset_seconds: i32 = (self.offset_minutes * 60) as i32;
        match civil_text(offset_seconds, self.seconds) {
            Some(text) => Ok(text),
            None => Err(BlameError::TimeOutOfRange { seconds: self.seconds }),
        }
    }
}

} // verus!

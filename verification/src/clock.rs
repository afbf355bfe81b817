//! Time stamps: reading the clock, and reading and showing the stamps that
//! notes carry.

use crate::errors::{ErrorKind, ThecaError};
use chrono::{DateTime, FixedOffset, Local};
use vstd::prelude::*;

verus! {

/// `ParseError` of chrono: why a text is no time stamp.
#[verifier::external_type_specification]
#[verifier::external_body]
pub struct ExParseError(chrono::ParseError);

/// The moment that a time stamp names, as whole seconds since 1970 UTC and
/// the nanoseconds past them, or nothing where the text is no time stamp.
pub uninterp spec fn stamp_instant(text: Seq<char>) -> Option<(i64, u32)>;

/// `Local::now` of chrono: the present moment as its seconds
/// (`timestamp`), its nanoseconds (`timestamp_subsec_nanos`), and as date,
/// time of day and offset from UTC in the machine's time zone (`format`
/// with `%F %T %z`).
#[verifier::external_body]
fn clock_now() -> (i64, u32, String) {
    let t = Local::now();
    (t.timestamp(), t.timestamp_subsec_nanos(), t.format("%F %T %z").to_string())
}

/// The present moment in the form that notes are stamped with.
pub(crate) fn timestamp_now() -> String {
    clock_now().2
}

/// The present moment as seconds since 1970 UTC and nanoseconds.
pub(crate) fn instant_now() -> (i64, u32) {
    let now = clock_now();
    (now.0, now.1)
}

/// `str::parse` to chrono's `DateTime<FixedOffset>`, handed on as the
/// moment's seconds (`timestamp`) and nanoseconds
/// (`timestamp_subsec_nanos`). Which texts are taken, and the moment each
/// names, depend on the text alone.
#[verifier::external_body]
fn read_stamp(lt: &str) -> (r: Result<(i64, u32), chrono::ParseError>)
    ensures
        match r {
            Ok(instant) => stamp_instant(lt@) == Some(instant),
            Err(_) => stamp_instant(lt@) is None,
        },
{
    lt.parse::<DateTime<FixedOffset>>().map(|t| (t.timestamp(), t.timestamp_subsec_nanos()))
}

/// `str::parse` to chrono's `DateTime<Local>`, handed on as date and time
/// of day in the machine's time zone (`format` with `%F %T`). It reads a
/// text as `DateTime<FixedOffset>` does and then looks up the zone, so it
/// takes the same texts; what it shows depends on the machine.
#[verifier::external_body]
fn local_form(lt: &str) -> (r: Result<String, chrono::ParseError>)
    ensures
        r is Ok <==> stamp_instant(lt@) is Some,
{
    lt.parse::<DateTime<Local>>().map(|t| t.format("%F %T").to_string())
}

/// `ParseError::to_string` of chrono: the sentence that says why a text is
/// no time stamp.
#[verifier::external_body]
fn parse_error_text(e: &chrono::ParseError) -> String {
    e.to_string()
}

/// The failure that stands for a text that is no time stamp.
pub open spec fn is_stamp_failure(e: ThecaError) -> bool {
    e.is(ErrorKind::Chrono, "Failed to parse date/time"@) && e.detail is Some
}

/// The failure for a text that chrono does not take as a time stamp.
fn stamp_failure(e: &chrono::ParseError) -> (r: ThecaError)
    ensures
        is_stamp_failure(r),
{
    ThecaError::with_detail(ErrorKind::Chrono, "Failed to parse date/time", parse_error_text(e))
}

/// The moment that the time stamp `lt` names.
pub fn parse_last_touched(lt: &str) -> (r: Result<(i64, u32), ThecaError>)
    ensures
        match r {
            Ok(instant) => stamp_instant(lt@) == Some(instant),
            Err(e) => stamp_instant(lt@) is None && is_stamp_failure(e),
        },
{
    match read_stamp(lt) {
        Ok(instant) => Ok(instant),
        Err(e) => Err(stamp_failure(&e)),
    }
}

/// The time stamp `lt` as date and time of day in the machine's time zone.
/// It fails exactly on the texts that are no time stamp.
pub fn localize_last_touched_string(lt: &str) -> (r: Result<String, ThecaError>)
    ensures
        r is Ok <==> stamp_instant(lt@) is Some,
        r is Err ==> is_stamp_failure(r->Err_0),
{
    match local_form(lt) {
        Ok(shown) => Ok(shown),
        Err(e) => Err(stamp_failure(&e)),
    }
}

} // verus!

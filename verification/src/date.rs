//! Rendering a source commit's authorship time for the `Source-Date` line:
//! RFC 3339 in the commit's own UTC offset when the timestamp is
//! representable, else the raw seconds in decimal. Never fails.

use crate::numeral::dec_digits;
use crate::numeral::dec_int;
use crate::numeral::digit_char;
use crate::numeral::i64_to_string;
use crate::text::no_newline;
use vstd::prelude::*;

verus! {

/// What chrono renders for a representable timestamp: the RFC 3339 form of
/// `seconds` since the epoch, in the fixed offset of `offset_seconds`.
pub uninterp spec fn rfc3339_of(seconds: int, offset_seconds: int) -> Seq<char>;

/// Whether chrono can represent `seconds` since the epoch as a date-time.
pub uninterp spec fn rfc3339_renderable(seconds: int) -> bool;

/// Relies on chrono's `FixedOffset::east_opt`, `TimeZone::timestamp_opt` on
/// `Utc` and `DateTime::to_rfc3339`: for an offset strictly within one day,
/// `east_opt` succeeds; `timestamp_opt` with zero nanoseconds yields a
/// single date-time exactly when the seconds are within chrono's
/// representable range, which depends on the seconds alone; and the
/// RFC 3339 rendering is a function of seconds and offset alone and holds
/// no line feed.
#[verifier::external_body]
fn rfc3339_render(seconds: i64, offset_seconds: i32) -> (r: Option<String>)
    requires
        -86400 < offset_seconds < 86400,
    ensures
        r is Some <==> rfc3339_renderable(seconds as int),
        match r {
            Some(s) => s@ == rfc3339_of(seconds as int, offset_seconds as int) && no_newline(s@),
            None => true,
        },
{
    let offset = chrono::FixedOffset::east_opt(offset_seconds)?;
    let utc = chrono::TimeZone::timestamp_opt(&chrono::Utc, seconds, 0).single()?;
    Some(utc.with_timezone(&offset).to_rfc3339())
}

/// The authorship offset in seconds, saturated to `i32`.
pub open spec fn offset_seconds_spec(offset_minutes: int) -> int {
    if offset_minutes * 60 > i32::MAX {
        i32::MAX as int
    } else if offset_minutes * 60 < i32::MIN {
        i32::MIN as int
    } else {
        offset_minutes * 60
    }
}

/// The offset the date is rendered in: the authorship offset when it is a
/// valid fixed offset (strictly within one day), else UTC.
pub open spec fn effective_offset_spec(offset_minutes: int) -> int {
    let os = offset_seconds_spec(offset_minutes);
    if -86400 < os < 86400 {
        os
    } else {
        0
    }
}

/// The `Source-Date` value for an authorship record.
pub open spec fn source_date_spec(seconds: int, offset_minutes: int) -> Seq<char> {
    if rfc3339_renderable(seconds) {
        rfc3339_of(seconds, effective_offset_spec(offset_minutes))
    } else {
        dec_int(seconds)
    }
}

proof fn lemma_dec_digits_no_newline(n: int)
    requires
        n >= 0,
    ensures
        no_newline(dec_digits(n)),
    decreases n,
{
    if n < 10 {
        assert(digit_char(n) != '\n');
    } else {
        lemma_dec_digits_no_newline(n / 10);
        assert(digit_char(n % 10) != '\n');
    }
}

/// The decimal fallback is one line.
pub proof fn lemma_dec_int_no_newline(v: int)
    ensures
        no_newline(dec_int(v)),
{
    if v < 0 {
        lemma_dec_digits_no_newline(-v);
    } else {
        lemma_dec_digits_no_newline(v);
    }
}

/// Renders the `Source-Date` value for an authorship record; always one
/// line, never an error.
pub fn format_source_date(seconds: i64, offset_minutes: i32) -> (r: String)
    ensures
        r@ == source_date_spec(seconds as int, offset_minutes as int),
        no_newline(r@),
{
    let offset_seconds: i32 = if offset_minutes > 35791394 {
        i32::MAX
    } else if offset_minutes < -35791394 {
        i32::MIN
    } else {
        offset_minutes * 60
    };
    assert(offset_seconds as int == offset_seconds_spec(offset_minutes as int));
    let eff: i32 = if -86400 < offset_seconds && offset_seconds < 86400 {
        offset_seconds
    } else {
        0
    };
    match rfc3339_render(seconds, eff) {
        Some(s) => s,
        None => {
            proof {
                lemma_dec_int_no_newline(seconds as int);
            }
            i64_to_string(seconds)
        },
    }
}

} // verus!

//! Human-readable display of a message timestamp. The calendar arithmetic
//! and the text layout belong to chrono; the library fixes what is shown
//! when: the formatted UTC instant where the seconds are representable, a
//! fixed placeholder where they are not.

use vstd::prelude::*;

verus! {

/// The smallest number of seconds since the epoch that chrono's `DateTime`
/// can represent (the start of its least year, -262143).
pub const MIN_DISPLAY_SECS: i64 = -8334601228800;

/// The largest number of seconds since the epoch that chrono's `DateTime`
/// can represent (the last second of its greatest year, 262142).
pub const MAX_DISPLAY_SECS: i64 = 8210266876799;

/// The formatted UTC date and time of an instant, e.g.
/// `2015-05-15 00:00:00 UTC`: a function of the seconds alone.
pub uninterp spec fn utc_display(secs: i64) -> Seq<char>;

/// The placeholder shown for a timestamp no date can be made of.
pub open spec fn bad_time_text() -> Seq<char> {
    "Bad Time"@
}

/// Relies on `chrono::DateTime::<Utc>::from_timestamp`, which returns `None`
/// exactly on an out-of-range number of seconds (chrono represents years
/// -262143 through 262142), and on the `Display` impl of `DateTime<Utc>`,
/// whose text is a function of the instant alone.
#[verifier::external_body]
fn format_utc(secs: i64) -> (r: Option<String>)
    ensures
        r is Some <==> MIN_DISPLAY_SECS <= secs <= MAX_DISPLAY_SECS,
        r matches Some(s) ==> s@ == utc_display(secs),
{
    chrono::DateTime::from_timestamp(secs, 0).map(|dt| format!("{}", dt))
}

/// A `u64` timestamp reinterpreted as the signed machine word the display
/// path reads it as.
pub open spec fn wrap_to_i64(t: u64) -> int {
    if t <= i64::MAX {
        t as int
    } else {
        t - 0x10000000000000000
    }
}

/// The line shown for a message timestamp: the formatted UTC instant where
/// one exists, the placeholder otherwise.
pub open spec fn time_display(t: u64) -> Seq<char> {
    if MIN_DISPLAY_SECS <= wrap_to_i64(t) <= MAX_DISPLAY_SECS {
        utc_display(wrap_to_i64(t) as i64)
    } else {
        bad_time_text()
    }
}

/// Formats a message timestamp for the report, falling back to the
/// placeholder where no date can be made of it.
pub fn display_timestamp(t: u64) -> (r: String)
    ensures
        r@ == time_display(t),
{
    if t <= MAX_DISPLAY_SECS as u64 {
        match format_utc(t as i64) {
            Some(s) => s,
            None => "Bad Time".to_owned(),
        }
    } else if t >= 18438409472480722816 {
        // Reinterpreted as a signed word the value is negative yet still
        // within the representable range of dates.
        let diff: u64 = u64::MAX - t;
        let secs: i64 = -((diff as i64) + 1);
        proof {
            assert(secs == wrap_to_i64(t));
        }
        match format_utc(secs) {
            Some(s) => s,
            None => "Bad Time".to_owned(),
        }
    } else {
        "Bad Time".to_owned()
    }
}

} // verus!

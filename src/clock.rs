//! Wall-clock instants, as the host reads them, and their text on screen.

use vstd::prelude::*;

verus! {

/// An instant of local wall-clock time: whole seconds since 1970-01-01 00:00:00
/// and the nanoseconds past that second.
#[derive(Clone, Copy, Debug, PartialEq, Eq, Structural)]
pub struct Timestamp {
    pub secs: i64,
    pub nanos: u32,
}

/// First second of the year 1.
pub const CLOCK_MIN_SECS: i64 = -62_135_596_800;

/// Last second of the year 9999.
pub const CLOCK_MAX_SECS: i64 = 253_402_300_799;

/// The instant falls in the years that the clock text shows with four digits.
pub open spec fn shown_on_clock(t: Timestamp) -> bool {
    CLOCK_MIN_SECS <= t.secs <= CLOCK_MAX_SECS
}

/// The second `secs` written as `dd/mm/yyyy HH:MM:SS`.
pub uninterp spec fn clock_text_of(secs: int) -> Seq<char>;

/// Relies on chrono's `DateTime::from_timestamp`, which has a date for every second of
/// the years 1 to 9999, and on its `format` with the pattern `%d/%m/%Y %H:%M:%S`.
#[verifier::external_body]
fn format_clock(secs: i64) -> (r: String)
    requires
        CLOCK_MIN_SECS <= secs <= CLOCK_MAX_SECS,
    ensures
        r@ == clock_text_of(secs as int),
{
    match chrono::DateTime::from_timestamp(secs, 0) {
        Some(t) => t.format("%d/%m/%Y %H:%M:%S").to_string(),
        None => String::new(),
    }
}

impl Timestamp {
    /// The text that the clock shows for this instant, or `None` outside the years 1 to 9999.
    pub fn clock_text(&self) -> (r: Option<String>)
        ensures
            shown_on_clock(*self) <==> r is Some,
            r matches Some(t) ==> t@ == clock_text_of(self.secs as int),
    {
        if CLOCK_MIN_SECS <= self.secs && self.secs <= CLOCK_MAX_SECS {
            Some(format_clock(self.secs))
        } else {
            None
        }
    }
}

} // verus!

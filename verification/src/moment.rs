//! Moments of time and their text form.

use vstd::prelude::*;

verus! {

pub const SECONDS_PER_DAY: i64 = 86_400;

/// A moment in UTC: seconds since 1970 and the nanoseconds of that second.
#[derive(Debug, Clone, Copy, PartialEq, Eq, Structural)]
pub struct Moment {
    pub seconds: i64,
    pub nanos: u32,
}

/// The RFC 3339 text of a moment in UTC; none for one that is out of chrono's range.
pub uninterp spec fn moment_text(seconds: i64, nanos: u32) -> Option<Seq<char>>;

/// Prints a moment by `chrono::DateTime::<Utc>::from_timestamp` and `to_rfc3339`.
/// The claim is only that the text depends on the two numbers alone.
#[verifier::external_body]
fn print_moment(seconds: i64, nanos: u32) -> (r: Option<String>)
    ensures
        crate::text::opt_view(r) == moment_text(seconds, nanos),
{
    match chrono::DateTime::<chrono::Utc>::from_timestamp(seconds, nanos) {
        Some(t) => Some(t.to_rfc3339()),
        None => None,
    }
}

impl Moment {
    /// The text of a moment.
    pub fn text(&self) -> (r: Option<String>)
        ensures
            crate::text::opt_view(r) == moment_text(self.seconds, self.nanos),
    {
        print_moment(self.seconds, self.nanos)
    }

    /// The moment some days earlier, where the seconds can be counted.
    pub open spec fn earlier(self, days: u64) -> Option<Moment> {
        if self.seconds - days * SECONDS_PER_DAY >= i64::MIN {
            Some(Moment { seconds: (self.seconds - days * SECONDS_PER_DAY) as i64, ..self })
        } else {
            None
        }
    }

    /// The moment some days earlier, where the seconds can be counted.
    pub fn days_earlier(&self, days: u64) -> (r: Option<Moment>)
        ensures
            r == self.earlier(days),
    {
        let span: i128 = days as i128 * 86_400i128;
        assert(span == days * SECONDS_PER_DAY);
        let earliest: i128 = self.seconds as i128 - span;
        if earliest >= i64::MIN as i128 {
            Some(Moment { seconds: earliest as i64, nanos: self.nanos })
        } else {
            None
        }
    }
}

} // verus!

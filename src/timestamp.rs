//! Instants of the history log, and their RFC 3339 text.

use vstd::prelude::*;

use crate::text::is_ws;

verus! {

/// An instant, as nanoseconds since 1970-01-01T00:00:00Z. Every `i64` is a
/// valid instant (the years 1677 to 2262).
#[derive(Debug, Clone, Copy, PartialEq, Eq, Structural)]
pub struct Timestamp {
    pub nanos: i64,
}

impl Timestamp {
    pub fn from_nanos(nanos: i64) -> (r: Timestamp)
        ensures
            r.nanos == nanos,
    {
        Timestamp { nanos }
    }
}

/// The instant that chrono reads from an RFC 3339 text, in nanoseconds since
/// the epoch; `None` when the text is not RFC 3339 or the instant lies
/// outside the `i64` range of nanoseconds.
pub uninterp spec fn rfc3339_instant(s: Seq<char>) -> Option<i64>;

/// The RFC 3339 text that chrono writes for an instant, with offset `+00:00`.
pub uninterp spec fn rfc3339_text(nanos: i64) -> Seq<char>;

/// Relies on chrono's `DateTime::parse_from_rfc3339`, and on
/// `DateTime::timestamp_nanos_opt` to read the parsed instant as nanoseconds.
#[verifier::external_body]
fn parse_rfc3339(s: &str) -> (r: Option<i64>)
    ensures
        r == rfc3339_instant(s@),
{
    match chrono::DateTime::parse_from_rfc3339(s) {
        Ok(d) => d.timestamp_nanos_opt(),
        Err(_) => None,
    }
}

/// Relies on chrono's `DateTime::to_rfc3339`, on the UTC instant that
/// `DateTime::from_timestamp_nanos` makes of `nanos` (total on `i64`). The
/// text is made of digits, `-`, `+`, `T`, `:` and `.`: it holds no whitespace.
#[verifier::external_body]
fn format_rfc3339(nanos: i64) -> (r: String)
    ensures
        r@ == rfc3339_text(nanos),
        r@.len() > 0,
        forall|i: int| 0 <= i < r@.len() ==> !is_ws(#[trigger] r@[i]),
{
    chrono::DateTime::from_timestamp_nanos(nanos).to_rfc3339()
}

impl Timestamp {
    /// Reads an RFC 3339 text; `None` when chrono rejects it or the instant
    /// does not fit in nanoseconds of an `i64`.
    pub fn parse_rfc3339(s: &str) -> (r: Option<Timestamp>)
        ensures
            match rfc3339_instant(s@) {
                Some(n) => r == Some(Timestamp { nanos: n }),
                None => r is None,
            },
    {
        match parse_rfc3339(s) {
            Some(n) => Some(Timestamp { nanos: n }),
            None => None,
        }
    }

    /// The instant as RFC 3339 text in UTC (`+00:00`).
    pub fn to_rfc3339(&self) -> (r: String)
        ensures
            r@ == rfc3339_text(self.nanos),
            r@.len() > 0,
            forall|i: int| 0 <= i < r@.len() ==> !is_ws(#[trigger] r@[i]),
    {
        format_rfc3339(self.nanos)
    }
}

} // verus!

//! Points in time: a Unix time in seconds with the local offset from UTC
//! that held then, and the local calendar day they fall on.
use vstd::prelude::*;

verus! {

/// The Unix time, in seconds, that a directory name of the form
/// `YYYY-MM-DD_HH-MM-SS` denotes when read as UTC; `None` for any other name.
pub uninterp spec fn dir_timestamp(name: Seq<char>) -> Option<i64>;

/// Relies on chrono's `NaiveDateTime::parse_from_str` with the format
/// `%Y-%m-%d_%H-%M-%S`, read as UTC by `NaiveDateTime::and_utc`, and on
/// `DateTime::timestamp`.
#[verifier::external_body]
pub fn parse_dir_timestamp(name: &str) -> (r: Option<i64>)
    ensures
        r == dir_timestamp(name@),
{
    chrono::NaiveDateTime::parse_from_str(name, "%Y-%m-%d_%H-%M-%S").ok().map(
        |t| t.and_utc().timestamp(),
    )
}

/// The day, counted from 1970-01-01, that text of the form `YYYY-MM-DD`
/// names; `None` for any other text.
pub uninterp spec fn day_of_text(text: Seq<char>) -> Option<i64>;

/// Relies on chrono's `NaiveDate::parse_from_str` with the format `%Y-%m-%d`,
/// and on subtracting `NaiveDate::default()`, which is 1970-01-01, from the date read.
#[verifier::external_body]
pub fn parse_day(text: &str) -> (r: Option<i64>)
    ensures
        r == day_of_text(text@),
{
    chrono::NaiveDate::parse_from_str(text, "%Y-%m-%d").ok().map(
        |d| (d - chrono::NaiveDate::default()).num_days(),
    )
}

/// Relies on chrono's `DateTime::from_timestamp` and the `Local` time zone:
/// the offset of local time from UTC at the instant `secs`, which chrono's
/// `FixedOffset` keeps strictly within one day; `None` where chrono cannot
/// represent the instant.
#[verifier::external_body]
fn local_offset(secs: i64) -> (r: Option<i32>)
    ensures
        r matches Some(o) ==> -86400 < o < 86400,
{
    chrono::DateTime::from_timestamp(secs, 0).map(
        |t| t.with_timezone(&chrono::Local).offset().local_minus_utc(),
    )
}

/// An instant with the offset of local time from UTC, in seconds, that held then.
#[derive(Debug, Clone, Copy, PartialEq, Eq)]
pub struct Timestamp {
    pub secs: i64,
    pub offset: i32,
}

impl Timestamp {
    /// The local calendar day, counted from 1970-01-01.
    pub open spec fn day(self) -> int {
        (self.secs + self.offset) / 86400
    }

    /// The instant `secs` with the local offset at that instant (none where
    /// chrono cannot tell it).
    pub fn at(secs: i64) -> (r: Timestamp)
        ensures
            r.secs == secs,
            -86400 < r.offset < 86400,
    {
        let offset = match local_offset(secs) {
            Some(o) => o,
            None => 0,
        };
        Timestamp { secs, offset }
    }

    /// The local calendar day, counted from 1970-01-01.
    pub fn local_day(&self) -> (r: i64)
        ensures
            r == self.day(),
    {
        let t: i128 = self.secs as i128 + self.offset as i128;
        if t >= 0 {
            let q: i128 = t / 86400;
            assert(q == (self.secs + self.offset) / 86400);
            q as i64
        } else {
            let u: i128 = -t - 1;
            let q: i128 = u / 86400;
            proof {
                let r = u % 86400;
                assert(u == q * 86400 + r && 0 <= r < 86400) by (nonlinear_arith)
                    requires
                        q == u / 86400,
                        r == u % 86400,
                        u >= 0,
                ;
                assert(t == (-q - 1) * 86400 + (86400 - r - 1)) by (nonlinear_arith)
                    requires
                        u == q * 86400 + r,
                        t == -u - 1,
                ;
                vstd::arithmetic::div_mod::lemma_fundamental_div_mod_converse(
                    t as int,
                    86400,
                    -q - 1,
                    86400 - r - 1,
                );
            }
            (-q - 1) as i64
        }
    }
}

} // verus!

//! Absolute instants and the calendar conversions the renderer needs.
//!
//! An instant is seconds and nanoseconds since the Unix epoch, kept within
//! a range far inside what the calendar library accepts, so that parsing
//! and formatting through it can never fail or panic.
use vstd::prelude::*;

verus! {

/// Lowest second an `Instant` may hold.
pub const MIN_SECS: i64 = -8_000_000_000_000;

/// Highest second an `Instant` may hold.
pub const MAX_SECS: i64 = 8_000_000_000_000;

/// An absolute UTC instant: seconds and nanoseconds since the Unix epoch.
#[derive(PartialEq, Eq, Structural, Clone, Copy, Debug)]
pub struct Instant {
    pub secs: i64,
    pub nanos: u32,
}

impl Instant {
    /// Within range, with nanoseconds below one second.
    pub open spec fn wf(self) -> bool {
        &&& MIN_SECS <= self.secs <= MAX_SECS
        &&& self.nanos < 1_000_000_000
    }
}

/// What the calendar library reads out of an RFC 3339-like text: the
/// instant it denotes, or nothing when the text does not parse. The result
/// depends on the text alone.
pub uninterp spec fn rfc3339_epoch(s: Seq<char>) -> Option<(i64, u32)>;

/// Relies on chrono's `DateTime::parse_from_str` with the `%+` (RFC 3339 /
/// ISO 8601) format, then `timestamp` and `timestamp_subsec_nanos` on the
/// UTC view of the parsed value. Any parsed instant lies within chrono's
/// datetime range (under 8.4e12 seconds from the epoch either way), and its
/// nanosecond part is below two seconds (leap seconds may exceed one).
#[verifier::external_body]
pub(crate) fn parse_rfc3339(s: &str) -> (r: Option<(i64, u32)>)
    ensures
        r == rfc3339_epoch(s@),
        r matches Some(p) ==> -8_400_000_000_000 < p.0 < 8_400_000_000_000 && p.1
            < 2_000_000_000,
{
    match chrono::DateTime::parse_from_str(s, "%+") {
        Ok(dt) => {
            let utc = dt.with_timezone(&chrono::Utc);
            Some((utc.timestamp(), utc.timestamp_subsec_nanos()))
        },
        Err(_) => None,
    }
}

/// The text chrono's `%Y-%m-%d %H:%M:%S%.3f` format produces for the
/// instant shifted into the fixed offset. The result depends on the
/// arguments alone.
pub uninterp spec fn civil_text(secs: i64, nanos: u32, offset: i32) -> Seq<char>;

/// Relies on chrono: `DateTime::from_timestamp` (total on this range),
/// `FixedOffset::east_opt` (total for offsets within a day), and `format`
/// with `%Y-%m-%d %H:%M:%S%.3f`.
#[verifier::external_body]
pub(crate) fn format_civil(secs: i64, nanos: u32, offset: i32) -> (r: String)
    requires
        MIN_SECS <= secs <= MAX_SECS,
        nanos < 1_000_000_000,
        -86_400 < offset < 86_400,
    ensures
        r@ == civil_text(secs, nanos, offset),
{
    let tz = match chrono::FixedOffset::east_opt(offset) {
        Some(tz) => tz,
        None => chrono::FixedOffset::east_opt(0).unwrap(),
    };
    let dt = match chrono::DateTime::from_timestamp(secs, nanos) {
        Some(dt) => dt,
        None => chrono::DateTime::from_timestamp(0, 0).unwrap(),
    };
    dt.with_timezone(&tz).format("%Y-%m-%d %H:%M:%S%.3f").to_string()
}

/// The instant a parsed epoch pair denotes once a leap-second nanosecond
/// overhang is folded into the seconds, or nothing when out of range.
pub open spec fn instant_of_epoch(secs: int, nanos: int) -> Option<Instant> {
    let s2 = secs + nanos / 1_000_000_000;
    let n2 = nanos % 1_000_000_000;
    if MIN_SECS <= s2 <= MAX_SECS {
        Some(Instant { secs: s2 as i64, nanos: n2 as u32 })
    } else {
        None
    }
}

/// Fold an epoch pair from the RFC 3339 parser into a well-formed instant.
pub(crate) fn instant_from_parse(secs: i64, nanos: u32) -> (r: Option<Instant>)
    requires
        -8_400_000_000_000 < secs < 8_400_000_000_000,
        nanos < 2_000_000_000,
    ensures
        r == instant_of_epoch(secs as int, nanos as int),
        r matches Some(t) ==> t.wf(),
{
    let (s2, n2): (i64, u32) = if nanos >= 1_000_000_000 {
        (secs + 1, nanos - 1_000_000_000)
    } else {
        (secs, nanos)
    };
    proof {
        if nanos >= 1_000_000_000 {
            assert(nanos as int / 1_000_000_000 == 1) by (nonlinear_arith)
                requires
                    1_000_000_000 <= nanos < 2_000_000_000,
            ;
            assert(nanos as int % 1_000_000_000 == nanos - 1_000_000_000) by (nonlinear_arith)
                requires
                    1_000_000_000 <= nanos < 2_000_000_000,
            ;
        } else {
            assert(nanos as int / 1_000_000_000 == 0) by (nonlinear_arith)
                requires
                    0 <= nanos < 1_000_000_000,
            ;
            assert(nanos as int % 1_000_000_000 == nanos as int) by (nonlinear_arith)
                requires
                    0 <= nanos < 1_000_000_000,
            ;
        }
    }
    if s2 < MIN_SECS || s2 > MAX_SECS {
        None
    } else {
        Some(Instant { secs: s2, nanos: n2 })
    }
}

/// The instant a `{seconds, nanos}` pair of integers denotes: the
/// nanoseconds (of either sign) are folded into the seconds, and the result
/// must lie in range.
pub open spec fn instant_of_parts(seconds: i64, nanos: i64) -> Option<Instant> {
    if seconds < MIN_SECS || seconds > MAX_SECS {
        None
    } else {
        instant_of_epoch(seconds as int, nanos as int)
    }
}

/// Combine a `{seconds, nanos}` pair into a well-formed instant.
pub(crate) fn instant_from_parts(seconds: i64, nanos: i64) -> (r: Option<Instant>)
    ensures
        r == instant_of_parts(seconds, nanos),
        r matches Some(t) ==> t.wf(),
{
    if seconds < MIN_SECS || seconds > MAX_SECS {
        return None;
    }
    let (q, rem): (i64, i64) = if nanos >= 0 {
        ((nanos / 1_000_000_000) as i64, (nanos % 1_000_000_000) as i64)
    } else {
        let p: i128 = -(nanos as i128);
        let q0 = (p / 1_000_000_000) as i64;
        let r0 = (p % 1_000_000_000) as i64;
        if r0 == 0 {
            (-q0, 0)
        } else {
            (-q0 - 1, 1_000_000_000 - r0)
        }
    };
    proof {
        assert(nanos == q * 1_000_000_000 + rem && 0 <= rem < 1_000_000_000) by (nonlinear_arith)
            requires
                ({
                    if nanos >= 0 {
                        q == nanos as int / 1_000_000_000 && rem == nanos as int % 1_000_000_000
                    } else {
                        let p = -(nanos as int);
                        let q0 = p / 1_000_000_000;
                        let r0 = p % 1_000_000_000;
                        if r0 == 0 {
                            q == -q0 && rem == 0
                        } else {
                            q == -q0 - 1 && rem == 1_000_000_000 - r0
                        }
                    }
                }),
        ;
        vstd::arithmetic::div_mod::lemma_fundamental_div_mod_converse(
            nanos as int,
            1_000_000_000,
            q as int,
            rem as int,
        );
    }
    let s2 = seconds + q;
    if s2 < MIN_SECS || s2 > MAX_SECS {
        None
    } else {
        Some(Instant { secs: s2, nanos: rem as u32 })
    }
}

} // verus!

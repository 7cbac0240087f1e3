//! The current date, as the compiler frontend requests it: queried once per
//! job, then fixed, and convertible to a caller-supplied UTC offset or to
//! the machine's local one.

use vstd::prelude::*;

verus! {

/// A calendar date in the proleptic Gregorian calendar.
#[derive(Clone, Copy, Debug, PartialEq, Eq, Structural)]
pub struct Date {
    pub year: i64,
    pub month: i64,
    pub day: i64,
}

/// Relies on `chrono::Utc::now`: the seconds since the epoch, from the
/// system clock. Nothing more is known of the result: it is the time now.
/// The call itself assumes a system clock at or after the epoch — on a
/// machine whose clock reads earlier it aborts inside the outside crate,
/// and no guard can be placed around it here.
#[verifier::external_body]
pub(crate) fn utc_now_epoch() -> i64 {
    chrono::Utc::now().timestamp()
}

/// Relies on `chrono::Local::now` and `FixedOffset::local_minus_utc`: the
/// local time zone's offset from UTC in seconds, strictly within one day —
/// every offset the zone lookup yields has passed `FixedOffset::east_opt`,
/// which enforces that bound. The call itself assumes well-formed zone data
/// on the machine; on corrupt data it aborts inside the outside crate.
#[verifier::external_body]
pub(crate) fn local_offset_seconds() -> (r: i32)
    ensures
        -86400 < r < 86400,
{
    chrono::Local::now().offset().local_minus_utc()
}

/// The last representable second: 9999-12-31T23:59:59Z. Instants outside
/// the epoch-to-year-9999 window are clamped to it before conversion.
pub const MAX_EPOCH: i64 = 253402300799;

/// An instant clamped into the supported window.
pub open spec fn spec_clamped(secs: int) -> int {
    if secs < 0 {
        0
    } else if secs > MAX_EPOCH as int {
        MAX_EPOCH as int
    } else {
        secs
    }
}

/// The civil date of a day count from the epoch (1970-01-01 is day 0),
/// by the standard era decomposition of the proleptic Gregorian calendar.
pub open spec fn spec_civil(z0: int) -> Date {
    let z = z0 + 719468;
    let era = z / 146097;
    let doe = z % 146097;
    let yoe = (doe - doe / 1460 + doe / 36524 - doe / 146096) / 365;
    let y = yoe + era * 400;
    let doy = doe - (365 * yoe + yoe / 4 - yoe / 100);
    let mp = (5 * doy + 2) / 153;
    let d = doy - (153 * mp + 2) / 5 + 1;
    let m = if mp < 10 {
        mp + 3
    } else {
        mp - 9
    };
    Date {
        year: (if m <= 2 {
            y + 1
        } else {
            y
        }) as i64,
        month: m as i64,
        day: d as i64,
    }
}

/// The date a cached instant denotes under a given offset from UTC.
pub open spec fn spec_today(epoch: int, offset_secs: int) -> Date {
    spec_civil(spec_clamped(epoch + offset_secs) / 86400)
}

/// Compute the civil date of an epoch instant shifted by an offset.
#[verifier::rlimit(100)]
pub fn civil_of(epoch: i64, offset_secs: i32) -> (r: Date)
    ensures
        r == spec_today(epoch as int, offset_secs as int),
{
    let bounded: i64 = if epoch > i64::MAX - 4294967296 {
        i64::MAX - 4294967296
    } else if epoch < i64::MIN + 4294967296 {
        i64::MIN + 4294967296
    } else {
        epoch
    };
    let shifted: i64 = bounded + offset_secs as i64;
    proof {
        assert(spec_clamped(epoch as int + offset_secs as int) == spec_clamped(shifted as int));
    }
    let clamped: i64 = if shifted < 0 {
        0
    } else if shifted > MAX_EPOCH {
        MAX_EPOCH
    } else {
        shifted
    };
    let days: i64 = clamped / 86400;
    proof {
        assert(0 <= days <= 2932896) by (nonlinear_arith)
            requires
                days == clamped / 86400,
                0 <= clamped <= 253402300799,
        ;
    }
    let z: i64 = days + 719468;
    let era: i64 = z / 146097;
    let doe: i64 = z % 146097;
    proof {
        assert(0 <= era <= 25 && 0 <= doe < 146097) by (nonlinear_arith)
            requires
                era == z / 146097,
                doe == z % 146097,
                0 <= z <= 3652364,
        ;
    }
    let yoe: i64 = (doe - doe / 1460 + doe / 36524 - doe / 146096) / 365;
    proof {
        assert(0 <= doe / 1460 <= doe / 1000 && 0 <= doe / 36524 <= 4 && 0 <= doe / 146096 <= 1
            && doe / 1460 <= doe) by (nonlinear_arith)
            requires
                0 <= doe < 146097,
        ;
        assert(0 <= yoe <= 400) by (nonlinear_arith)
            requires
                yoe == (doe - doe / 1460 + doe / 36524 - doe / 146096) / 365,
                0 <= doe < 146097,
                0 <= doe / 1460 <= doe,
                0 <= doe / 36524 <= 4,
                0 <= doe / 146096 <= 1,
        ;
    }
    let y: i64 = yoe + era * 400;
    let doy: i64 = doe - (365 * yoe + yoe / 4 - yoe / 100);
    proof {
        assert(0 <= yoe / 4 <= 100 && 0 <= yoe / 100 <= 4) by (nonlinear_arith)
            requires
                0 <= yoe <= 400,
        ;
    }
    let mp: i64 = (5 * doy + 2) / 153;
    let d: i64 = doy - (153 * mp + 2) / 5 + 1;
    let m: i64 = if mp < 10 {
        mp + 3
    } else {
        mp - 9
    };
    let year: i64 = if m <= 2 {
        y + 1
    } else {
        y
    };
    Date { year, month: m, day: d }
}

} // verus!

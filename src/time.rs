//! Moments in time as plain values: seconds and nanoseconds since the Unix
//! epoch, with the local offset from UTC in force at that moment.
use vstd::prelude::*;

verus! {

pub const SECS_PER_DAY: i64 = 86400;

pub const SECS_PER_WEEK: i64 = 604800;

/// A moment, and the local offset from UTC that applied to it.
#[derive(Clone, Copy, Debug, PartialEq, Eq, Structural)]
pub struct Timestamp {
    /// Whole seconds since 1970-01-01 00:00:00 UTC.
    pub secs: i64,
    /// Nanoseconds past `secs`.
    pub nanos: u32,
    /// Seconds to add to UTC to get local time.
    pub offset_secs: i32,
}

/// `t` comes before the moment `secs` seconds and `nanos` nanoseconds after the epoch.
pub open spec fn earlier_than(t: Timestamp, secs: int, nanos: int) -> bool {
    t.secs < secs || (t.secs == secs && t.nanos < nanos)
}

/// `a` comes before `b`.
pub open spec fn earlier(a: Timestamp, b: Timestamp) -> bool {
    earlier_than(a, b.secs as int, b.nanos as int)
}

impl Timestamp {
    /// The local calendar day of the moment, counted in days from 1970-01-01.
    pub open spec fn day(self) -> int {
        (self.secs + self.offset_secs) / (SECS_PER_DAY as int)
    }

    /// The local calendar day of the moment, counted in days from 1970-01-01.
    pub fn local_day(&self) -> (d: i64)
        ensures
            d == self.day(),
    {
        let x: i128 = self.secs as i128 + self.offset_secs as i128;
        let q: i128 = if x >= 0 {
            x / 86400
        } else {
            let y: i128 = -x - 1;
            let p: i128 = y / 86400;
            assert(-p - 1 == x / 86400) by (nonlinear_arith)
                requires
                    y == -x - 1,
                    y >= 0,
                    p == y / 86400,
            ;
            -p - 1
        };
        assert(x / 86400 >= i64::MIN && x / 86400 <= i64::MAX) by (nonlinear_arith)
            requires
                x >= i64::MIN + i32::MIN,
                x <= i64::MAX + i32::MAX,
        ;
        q as i64
    }

    /// Whether this moment comes before `other`.
    pub fn is_before(&self, other: &Timestamp) -> (r: bool)
        ensures
            r == earlier(*self, *other),
    {
        self.secs < other.secs || (self.secs == other.secs && self.nanos < other.nanos)
    }
}

/// Relies on chrono's `Local::now`, with `DateTime::timestamp`,
/// `DateTime::timestamp_subsec_nanos` and `FixedOffset::local_minus_utc`: the
/// current moment and the local offset that applies to it.
#[verifier::external_body]
pub(crate) fn now() -> Timestamp {
    let n = chrono::Local::now();
    Timestamp {
        secs: n.timestamp(),
        nanos: n.timestamp_subsec_nanos(),
        offset_secs: n.offset().local_minus_utc(),
    }
}

} // verus!

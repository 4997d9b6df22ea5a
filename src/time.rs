//! Converting timestamps to and from Unix time.
use crate::meta::{Timestamp, EPOCH_AFTER_UNIX_EPOCH_SEC};
use vstd::prelude::*;

verus! {

/// The timestamp of a Unix time in milliseconds.
pub open spec fn unix_ms_timestamp(ts: int) -> Timestamp {
    Timestamp {
        secs: (ts / 1000 - EPOCH_AFTER_UNIX_EPOCH_SEC) as i64,
        nanos: ((ts % 1000) * 1_000_000) as u32,
    }
}

/// The Unix time in milliseconds of a timestamp, sub-millisecond part dropped.
pub open spec fn timestamp_unix_ms(t: Timestamp) -> int {
    (t.secs + EPOCH_AFTER_UNIX_EPOCH_SEC) * 1000 + t.nanos / 1_000_000
}

/// The timestamp of a clock reading: seconds and nanoseconds after the Unix
/// epoch.
pub open spec fn unix_timestamp(secs: u64, nanos: u32) -> Timestamp {
    Timestamp { secs: (secs - EPOCH_AFTER_UNIX_EPOCH_SEC) as i64, nanos }
}

/// Relies on `SystemTime::now` and `UNIX_EPOCH.elapsed`: the time since the
/// Unix epoch as seconds and nanoseconds below one second, or `None` when
/// the clock reads earlier than the epoch.
#[verifier::external_body]
fn unix_clock() -> (r: Option<(u64, u32)>)
    ensures
        r matches Some((_, n)) ==> n < 1_000_000_000,
{
    match std::time::UNIX_EPOCH.elapsed() {
        Ok(d) => Some((d.as_secs(), d.subsec_nanos())),
        Err(_) => None,
    }
}

impl Timestamp {
    /// The timestamp of a Unix time in milliseconds.
    pub fn from_unix_ms(ts: i64) -> (r: Timestamp)
        ensures
            r == unix_ms_timestamp(ts as int),
            r.nanos < 1_000_000_000,
    {
        let (q, m) = if ts >= 0 {
            let u = ts as u64;
            ((u / 1000) as i64, (u % 1000) as u32)
        } else {
            let u = (-(ts + 1)) as u64;
            (-((u / 1000) as i64) - 1, 999 - (u % 1000) as u32)
        };
        proof {
            assert(q == ts / 1000 && m == ts % 1000) by (nonlinear_arith)
                requires
                    ts >= 0 ==> q == (ts as u64) / 1000 && m == (ts as u64) % 1000,
                    ts < 0 ==> q == -(((-(ts + 1)) as u64) / 1000) - 1 && m == 999 - ((-(ts
                        + 1)) as u64) % 1000,
            ;
        }
        Timestamp { secs: q - EPOCH_AFTER_UNIX_EPOCH_SEC, nanos: m * 1_000_000 }
    }

    /// The Unix time in milliseconds, sub-millisecond part dropped.
    pub fn to_unix_ms(&self) -> (r: i64)
        requires
            i64::MIN <= (self.secs + EPOCH_AFTER_UNIX_EPOCH_SEC) * 1000,
            timestamp_unix_ms(*self) <= i64::MAX,
        ensures
            r == timestamp_unix_ms(*self),
    {
        (self.secs + EPOCH_AFTER_UNIX_EPOCH_SEC) * 1000 + (self.nanos / 1_000_000) as i64
    }

    /// The timestamp of a clock reading; `None` when the seconds do not fit.
    pub fn from_unix_clock(secs: u64, nanos: u32) -> (r: Option<Timestamp>)
        ensures
            secs <= i64::MAX ==> r == Some(unix_timestamp(secs, nanos)),
            secs > i64::MAX ==> r is None,
    {
        if secs > i64::MAX as u64 {
            None
        } else {
            Some(Timestamp { secs: secs as i64 - EPOCH_AFTER_UNIX_EPOCH_SEC, nanos })
        }
    }

    /// The time now; `None` when the clock reads before the Unix epoch or
    /// beyond what the seconds field holds.
    pub fn now() -> (r: Option<Timestamp>)
        ensures
            r matches Some(t) ==> t.nanos < 1_000_000_000,
    {
        match unix_clock() {
            Some((secs, nanos)) => Timestamp::from_unix_clock(secs, nanos),
            None => None,
        }
    }
}

/// Nanoseconds in a second.
pub const NANOS_PER_SEC: i128 = 1_000_000_000;

/// A timestamp as a count of nanoseconds since the library's epoch.
pub open spec fn timestamp_nanos(t: Timestamp) -> int {
    t.secs * NANOS_PER_SEC + t.nanos
}

impl Timestamp {
    /// Nanoseconds since the library's epoch.
    pub fn to_nanos(&self) -> (r: i128)
        ensures
            r == timestamp_nanos(*self),
    {
        assert(-0x8000_0000_0000_0000 * NANOS_PER_SEC <= self.secs * NANOS_PER_SEC <= 0x7fff_ffff_ffff_ffff
            * NANOS_PER_SEC) by (nonlinear_arith)
            requires
                -0x8000_0000_0000_0000 <= self.secs <= 0x7fff_ffff_ffff_ffff,
        ;
        (self.secs as i128) * NANOS_PER_SEC + (self.nanos as i128)
    }

    /// The timestamp `n` nanoseconds after the library's epoch, with
    /// nanoseconds below one second.
    pub fn from_nanos(n: i128) -> (r: Timestamp)
        requires
            -0x8000_0000_0000_0000 * NANOS_PER_SEC <= n < 0x8000_0000_0000_0000 * NANOS_PER_SEC,
        ensures
            r.nanos < NANOS_PER_SEC,
            timestamp_nanos(r) == n,
    {
        let (q, m) = if n >= 0 {
            let q = n / NANOS_PER_SEC;
            let m = n % NANOS_PER_SEC;
            assert(q * 1_000_000_000 + m == n && 0 <= m < 1_000_000_000 && q < 0x8000_0000_0000_0000)
                by (nonlinear_arith)
                requires
                    n >= 0,
                    q == n / 1_000_000_000,
                    m == n % 1_000_000_000,
                    n < 0x8000_0000_0000_0000 * 1_000_000_000,
            ;
            (q, m)
        } else {
            let u = -(n + 1);
            let q0 = u / NANOS_PER_SEC;
            let m0 = u % NANOS_PER_SEC;
            assert(q0 * 1_000_000_000 + m0 == u && 0 <= m0 < 1_000_000_000 && q0 < 0x8000_0000_0000_0000)
                by (nonlinear_arith)
                requires
                    u >= 0,
                    q0 == u / 1_000_000_000,
                    m0 == u % 1_000_000_000,
                    u < 0x8000_0000_0000_0000 * 1_000_000_000,
            ;
            (-q0 - 1, NANOS_PER_SEC - 1 - m0)
        };
        Timestamp { secs: q as i64, nanos: m as u32 }
    }
}

} // verus!

//! Time stamps of messages and the nanosecond clock they are ordered by.

use vstd::prelude::*;

verus! {

/// Nanoseconds in a second.
pub const NANOS_PER_SEC: i64 = 1_000_000_000;

/// A message time stamp: whole seconds and nanoseconds.
#[derive(Clone, Copy, PartialEq, Eq, Structural, Debug)]
pub struct Time {
    pub sec: i32,
    pub nanosec: u32,
}

/// A point in time, in nanoseconds since the Unix epoch.
#[derive(Clone, Copy, PartialEq, Eq, Structural, Debug)]
pub struct ZTime {
    pub nanos: i64,
}

impl ZTime {
    /// The epoch itself. Lookups take it to mean "the latest available".
    pub fn zero() -> (t: Self)
        ensures
            t.nanos == 0,
    {
        ZTime { nanos: 0 }
    }

    pub fn from_unix_nanos(nanos: i64) -> (t: Self)
        ensures
            t.nanos == nanos,
    {
        ZTime { nanos }
    }

    pub fn as_unix_nanos(&self) -> (n: i64)
        ensures
            n == self.nanos,
    {
        self.nanos
    }
}

/// The nanoseconds since the epoch that a stamp stands for.
pub open spec fn stamp_nanos(stamp: Time) -> int {
    stamp.sec * 1_000_000_000 + stamp.nanosec
}

/// The value that the low 32 bits of `x` have as a signed number.
pub open spec fn wrapped_i32(x: int) -> int {
    let low = x % 0x1_0000_0000;
    if low < 0x8000_0000 {
        low
    } else {
        low - 0x1_0000_0000
    }
}

/// The stamp of a time: times before the epoch count as the epoch, and the
/// seconds keep their low 32 bits.
pub open spec fn stamp_of(t: ZTime) -> Time {
    let nanos = if t.nanos < 0 { 0 } else { t.nanos as int };
    Time {
        sec: wrapped_i32(nanos / 1_000_000_000) as i32,
        nanosec: (nanos % 1_000_000_000) as u32,
    }
}

/// Converts a stamp to the time it stands for.
pub fn stamp_to_ztime(stamp: &Time) -> (t: ZTime)
    ensures
        t.nanos == stamp_nanos(*stamp),
{
    ZTime::from_unix_nanos(stamp.sec as i64 * NANOS_PER_SEC + stamp.nanosec as i64)
}

/// Converts a time to a stamp.
pub fn ztime_to_stamp(t: ZTime) -> (stamp: Time)
    ensures
        stamp == stamp_of(t),
{
    let nanos: u64 = if t.nanos < 0 {
        0
    } else {
        t.nanos as u64
    };
    let whole: u64 = nanos / 1_000_000_000;
    let sec: i32 = #[verifier::truncate]
    (whole as i32);
    assert(sec == wrapped_i32(whole as int)) by {
        let low: u64 = whole % 0x1_0000_0000;
        assert(low < 0x8000_0000 ==> whole as i32 == low) by (bit_vector)
            requires
                low == whole % 0x1_0000_0000,
        ;
        assert(low >= 0x8000_0000 ==> whole as i32 == low - 0x1_0000_0000) by (bit_vector)
            requires
                low == whole % 0x1_0000_0000,
        ;
    }
    Time { sec, nanosec: (nanos % 1_000_000_000) as u32 }
}

/// A stamp at or after the epoch, with its nanoseconds below a second, comes
/// back from its time unchanged.
pub proof fn stamp_round_trip(stamp: Time, t: ZTime)
    requires
        stamp.sec >= 0,
        stamp.nanosec < 1_000_000_000,
        t.nanos == stamp_nanos(stamp),
    ensures
        stamp_of(t) == stamp,
{
    let n = t.nanos as int;
    assert(n / 1_000_000_000 == stamp.sec && n % 1_000_000_000 == stamp.nanosec);
}

/// A time from the epoch on, before the seconds leave 31 bits, comes back from
/// its stamp unchanged.
pub proof fn time_round_trip(t: ZTime)
    requires
        0 <= t.nanos < 0x8000_0000 * 1_000_000_000,
    ensures
        stamp_nanos(stamp_of(t)) == t.nanos,
{
    let n = t.nanos as int;
    assert(0 <= n / 1_000_000_000 < 0x8000_0000);
}

} // verus!

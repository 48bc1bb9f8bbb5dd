//! Points in time, as a file system keeps them.
use vstd::prelude::*;

verus! {

pub const NANOS_PER_SEC: u32 = 1_000_000_000;

/// A point in time with the precision of a nanosecond, within the seconds that an `i64`
/// counts from the epoch. Its view is the number of nanoseconds since the epoch.
#[derive(Debug, Clone, Copy)]
pub struct Timestamp {
    secs: i64,
    nanos: u32,
}

impl View for Timestamp {
    type V = int;

    closed spec fn view(&self) -> int {
        self.secs * NANOS_PER_SEC + self.nanos
    }
}

/// The nanoseconds that `secs` seconds and `nanos` nanoseconds make.
pub open spec fn duration_nanos(secs: u64, nanos: u32) -> int {
    secs * NANOS_PER_SEC + nanos
}

/// The whole seconds from `from` to `to`, both in nanoseconds; none where `to` is earlier.
pub open spec fn whole_secs(from: int, to: int) -> int {
    if from <= to {
        (to - from) / NANOS_PER_SEC as int
    } else {
        0
    }
}

impl Timestamp {
    #[verifier::type_invariant]
    spec fn inv(self) -> bool {
        self.nanos < NANOS_PER_SEC
    }

    /// The point `secs` seconds and `nanos` nanoseconds after the epoch. There is none
    /// where `nanos` makes up a second or `secs` is out of range.
    pub fn after_epoch(secs: u64, nanos: u32) -> (r: Option<Timestamp>)
        ensures
            r is Some <==> nanos < NANOS_PER_SEC && secs <= i64::MAX,
            r matches Some(t) ==> t@ == duration_nanos(secs, nanos),
    {
        if nanos < NANOS_PER_SEC && secs <= i64::MAX as u64 {
            Some(Timestamp { secs: secs as i64, nanos })
        } else {
            None
        }
    }

    /// The point `secs` seconds and `nanos` nanoseconds before the epoch. There is none
    /// where `nanos` makes up a second or the point is out of range.
    pub fn before_epoch(secs: u64, nanos: u32) -> (r: Option<Timestamp>)
        ensures
            r is Some <==> nanos < NANOS_PER_SEC && duration_nanos(secs, nanos)
                <= 0x8000_0000_0000_0000 * NANOS_PER_SEC,
            r matches Some(t) ==> t@ == -duration_nanos(secs, nanos),
    {
        if nanos >= NANOS_PER_SEC {
            None
        } else if nanos == 0 {
            if secs < 0x8000_0000_0000_0000 {
                Some(Timestamp { secs: -(secs as i64), nanos: 0 })
            } else if secs == 0x8000_0000_0000_0000 {
                Some(Timestamp { secs: i64::MIN, nanos: 0 })
            } else {
                None
            }
        } else if secs < 0x8000_0000_0000_0000 {
            Some(Timestamp { secs: -(secs as i64) - 1, nanos: NANOS_PER_SEC - nanos })
        } else {
            None
        }
    }

    /// Tells whether this point is later than `other`.
    pub fn is_after(&self, other: &Timestamp) -> (later: bool)
        ensures
            later == (self@ > other@),
    {
        proof {
            use_type_invariant(self);
            use_type_invariant(other);
        }
        self.secs > other.secs || (self.secs == other.secs && self.nanos > other.nanos)
    }

    /// The whole seconds from `earlier` to this point; none where `earlier` is later.
    pub fn secs_since(&self, earlier: &Timestamp) -> (secs: u64)
        ensures
            secs == whole_secs(earlier@, self@),
    {
        proof {
            use_type_invariant(self);
            use_type_invariant(earlier);
        }
        if earlier.is_after(self) {
            return 0;
        }
        let whole: i128 = self.secs as i128 - earlier.secs as i128;
        if self.nanos >= earlier.nanos {
            whole as u64
        } else {
            (whole - 1) as u64
        }
    }
}

/// A duration is counted in nanoseconds, of which a second has a thousand million.
pub proof fn durations_count_nanoseconds(secs: u64, nanos: u32)
    ensures
        duration_nanos(secs, nanos) == secs * 1_000_000_000 + nanos,
{
}

/// The whole seconds between two points are as many as fit between them, and there are none from
/// a point to an earlier one.
pub proof fn whole_seconds_fit(from: int, to: int)
    ensures
        from <= to ==> whole_secs(from, to) * 1_000_000_000 <= to - from < (whole_secs(from, to) + 1)
            * 1_000_000_000,
        from > to ==> whole_secs(from, to) == 0,
{
}

} // verus!

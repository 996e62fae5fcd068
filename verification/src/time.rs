use vstd::prelude::*;

verus! {

/// Nanoseconds in a second.
pub const BILLION: i64 = 1_000_000_000;

/// A moment: whole seconds since the beginning of 1970 in universal time,
/// and the nanoseconds since the last whole second.
#[derive(Clone, Copy, Debug, PartialEq, Eq, Structural)]
pub struct Timestamp {
    pub secs: i64,
    pub nanos: u32,
}

impl Timestamp {
    /// The beginning of 1970.
    pub open spec fn epoch() -> Timestamp {
        Timestamp { secs: 0, nanos: 0 }
    }

    /// The nanoseconds from the beginning of 1970 to this moment.
    pub open spec fn total_nanos(self) -> int {
        self.secs * 1_000_000_000 + self.nanos
    }
}

impl Default for Timestamp {
    fn default() -> (t: Self)
        ensures
            t == Timestamp::epoch(),
    {
        Timestamp { secs: 0, nanos: 0 }
    }
}

/// What the clock call answers at the moment `now`: the nanoseconds since
/// the beginning of 1970, or 0 where they do not fit into 64 bits.
pub open spec fn clock_value(now: Timestamp) -> i64 {
    if i64::MIN <= now.total_nanos() <= i64::MAX {
        now.total_nanos() as i64
    } else {
        0
    }
}

/// The moment that the library of dates makes of `secs` seconds since the
/// beginning of 1970 and `nsecs` nanoseconds: none where the nanoseconds
/// make two seconds or more, or make a second or more outside a minute's
/// last second, which alone can be followed by a leap second.
pub open spec fn utc_moment(secs: i64, nsecs: u32) -> Option<Timestamp> {
    if nsecs < 1_000_000_000 || (nsecs < 2_000_000_000 && secs % 60 == 59) {
        Some(Timestamp { secs, nanos: nsecs })
    } else {
        None
    }
}

/// Builds a moment with chrono's `DateTime::from_timestamp` and reads its
/// seconds and nanoseconds back with `timestamp` and
/// `timestamp_subsec_nanos`. Believed of chrono, for seconds within the
/// few centuries that 64 bits of nanoseconds span: the moment exists
/// exactly where [`utc_moment`] says, and reads back as it was given.
#[verifier::external_body]
pub(crate) fn from_timestamp(secs: i64, nsecs: u32) -> (r: Option<Timestamp>)
    requires
        -10_000_000_000 <= secs <= 10_000_000_000,
    ensures
        r == utc_moment(secs, nsecs),
{
    match chrono::DateTime::from_timestamp(secs, nsecs) {
        Some(t) => Some(Timestamp { secs: t.timestamp(), nanos: t.timestamp_subsec_nanos() }),
        None => None,
    }
}

/// The quotient of `time` by a billion, rounded toward zero.
pub open spec fn whole_seconds(time: i64) -> i64 {
    if time >= 0 {
        (time / 1_000_000_000) as i64
    } else {
        (-((-time) / 1_000_000_000)) as i64
    }
}

/// What is left of `time` after its whole seconds, wrapped into 32 bits
/// without a sign.
pub open spec fn wrapped_rest(time: i64) -> u32 {
    if time >= 0 {
        (time % 1_000_000_000) as u32
    } else if (-time) % 1_000_000_000 == 0 {
        0
    } else {
        (0x1_0000_0000 - (-time) % 1_000_000_000) as u32
    }
}

/// What a program makes of the answer `time` of the clock call: the
/// moment of its whole seconds and the rest, or the beginning of 1970
/// where that is no moment.
pub open spec fn time_of(time: i64) -> Timestamp {
    match utc_moment(whole_seconds(time), wrapped_rest(time)) {
        Some(t) => t,
        None => Timestamp::epoch(),
    }
}

/// Splits the answer of the clock call into a moment; see [`time_of`].
pub fn from_nanos(time: i64) -> (t: Timestamp)
    ensures
        t == time_of(time),
        time >= 0 ==> t.total_nanos() == time,
{
    let (secs, rest): (i64, u32) = if time >= 0 {
        (time / BILLION, (time % BILLION) as u32)
    } else {
        let size: u64 = if time == i64::MIN {
            0x8000_0000_0000_0000
        } else {
            (-time) as u64
        };
        let whole: u64 = size / 1_000_000_000;
        let left: u64 = size % 1_000_000_000;
        let rest: u32 = if left == 0 {
            0
        } else {
            (0x1_0000_0000u64 - left) as u32
        };
        (-(whole as i64), rest)
    };
    match from_timestamp(secs, rest) {
        Some(t) => t,
        None => Timestamp::default(),
    }
}

/// The answer of the clock call at the moment `now`; see [`clock_value`].
pub fn to_nanos(now: Timestamp) -> (r: i64)
    ensures
        r == clock_value(now),
{
    let total: i128 = (now.secs as i128) * 1_000_000_000 + (now.nanos as i128);
    if total < i64::MIN as i128 || total > i64::MAX as i128 {
        0
    } else {
        total as i64
    }
}

/// A moment with less than a second of nanoseconds that the clock call
/// can express comes back from [`from_nanos`] as it went into
/// [`to_nanos`], unless it lies before 1970.
pub proof fn lemma_clock_round_trip(now: Timestamp)
    requires
        now.nanos < 1_000_000_000,
        0 <= now.secs,
        now.total_nanos() <= i64::MAX,
    ensures
        time_of(clock_value(now)) == now,
{
    let time = clock_value(now);
    assert(time == now.secs * 1_000_000_000 + now.nanos);
    assert(time / 1_000_000_000 == now.secs && time % 1_000_000_000 == now.nanos) by (nonlinear_arith)
        requires
            time == now.secs * 1_000_000_000 + now.nanos,
            0 <= now.nanos < 1_000_000_000,
            0 <= now.secs,
    ;
}

} // verus!

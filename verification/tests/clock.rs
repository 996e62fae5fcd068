use kproc::syscall::sys_clock;
use kproc::time::{from_nanos, to_nanos, Timestamp, BILLION};
use kproc::user::time_answer;

#[test]
fn clock_counts_nanoseconds_since_1970() {
    assert_eq!(sys_clock(Timestamp { secs: 0, nanos: 0 }), 0);
    assert_eq!(sys_clock(Timestamp { secs: 1, nanos: 5 }), 1_000_000_005);
    assert_eq!(sys_clock(Timestamp { secs: 1_431_648_000, nanos: 999_999_999 }), 1_431_648_000_999_999_999);
    assert_eq!(sys_clock(Timestamp { secs: -1, nanos: 1 }), -999_999_999);
}

#[test]
fn clock_answers_zero_where_the_nanoseconds_do_not_fit() {
    assert_eq!(sys_clock(Timestamp { secs: 9_223_372_036, nanos: 854_775_807 }), i64::MAX);
    assert_eq!(sys_clock(Timestamp { secs: 9_223_372_036, nanos: 854_775_808 }), 0);
    assert_eq!(sys_clock(Timestamp { secs: -9_223_372_037, nanos: 145_224_192 }), i64::MIN);
    assert_eq!(sys_clock(Timestamp { secs: -9_223_372_037, nanos: 145_224_191 }), 0);
    assert_eq!(sys_clock(Timestamp { secs: i64::MAX, nanos: u32::MAX }), 0);
}

#[test]
fn time_splits_seconds_and_nanoseconds() {
    assert_eq!(from_nanos(0), Timestamp { secs: 0, nanos: 0 });
    assert_eq!(from_nanos(1_431_648_000_000_000_123), Timestamp { secs: 1_431_648_000, nanos: 123 });
    assert_eq!(from_nanos(BILLION - 1), Timestamp { secs: 0, nanos: 999_999_999 });
    assert_eq!(from_nanos(i64::MAX), Timestamp { secs: 9_223_372_036, nanos: 854_775_807 });
}

#[test]
fn time_before_1970_is_kept_only_on_whole_seconds() {
    assert_eq!(from_nanos(-BILLION), Timestamp { secs: -1, nanos: 0 });
    assert_eq!(from_nanos(-5 * BILLION), Timestamp { secs: -5, nanos: 0 });
    assert_eq!(from_nanos(-1), Timestamp { secs: 0, nanos: 0 });
    assert_eq!(from_nanos(-BILLION - 1), Timestamp { secs: 0, nanos: 0 });
    assert_eq!(from_nanos(i64::MIN), Timestamp { secs: 0, nanos: 0 });
}

#[test]
fn clock_and_time_undo_each_other() {
    for now in [
        Timestamp { secs: 0, nanos: 1 },
        Timestamp { secs: 59, nanos: 999_999_999 },
        Timestamp { secs: 1_700_000_000, nanos: 42 },
    ] {
        assert_eq!(from_nanos(to_nanos(now)), now);
    }
    assert_eq!(Timestamp::default(), Timestamp { secs: 0, nanos: 0 });
    assert_eq!(time_answer(1_000_000_007), Timestamp { secs: 1, nanos: 7 });
    assert_eq!(time_answer(u64::MAX), Timestamp { secs: 0, nanos: 0 });
    assert_eq!(to_nanos(Timestamp { secs: 3, nanos: 4 }), 3_000_000_004);
}

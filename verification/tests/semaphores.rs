use kproc::pid::ProcessId;
use kproc::sync::{Semaphore, SemaphoreResult, SemaphoreSet};

fn queue_of(set: &SemaphoreSet, key: u32) -> Vec<u16> {
    let row = set.sems.find(key as u64).expect("semaphore");
    set.sems.entries[row].value.wait_queue.iter().map(|p| p.0).collect()
}

fn count_of(set: &SemaphoreSet, key: u32) -> u64 {
    let row = set.sems.find(key as u64).expect("semaphore");
    set.sems.entries[row].value.count
}

#[test]
fn wait_takes_a_unit_while_one_is_left() {
    let mut sem = Semaphore::new(2);
    assert_eq!(sem.wait(ProcessId(7)), SemaphoreResult::Done);
    assert_eq!(sem.count, 1);
    assert_eq!(sem.wait(ProcessId(8)), SemaphoreResult::Done);
    assert_eq!(sem.count, 0);
    assert!(sem.wait_queue.is_empty());
}

#[test]
fn wait_without_units_joins_the_waiters() {
    let mut sem = Semaphore::new(0);
    assert_eq!(sem.wait(ProcessId(7)), SemaphoreResult::Block(ProcessId(7)));
    assert_eq!(sem.wait(ProcessId(9)), SemaphoreResult::Block(ProcessId(9)));
    assert_eq!(sem.count, 0);
    let waiting: Vec<u16> = sem.wait_queue.iter().map(|p| p.0).collect();
    assert_eq!(waiting, vec![7, 9]);
}

#[test]
fn signal_wakes_the_longest_waiting_and_keeps_the_counter() {
    let mut sem = Semaphore::new(0);
    sem.wait(ProcessId(3));
    sem.wait(ProcessId(4));
    sem.wait(ProcessId(5));
    assert_eq!(sem.signal(), SemaphoreResult::WakeUp(ProcessId(3)));
    assert_eq!(sem.count, 0);
    assert_eq!(sem.signal(), SemaphoreResult::WakeUp(ProcessId(4)));
    assert_eq!(sem.signal(), SemaphoreResult::WakeUp(ProcessId(5)));
    assert_eq!(sem.signal(), SemaphoreResult::Done);
    assert_eq!(sem.count, 1);
}

#[test]
fn signal_stops_at_the_largest_counter() {
    let mut sem = Semaphore::new(u64::MAX);
    assert_eq!(sem.signal(), SemaphoreResult::Done);
    assert_eq!(sem.count, u64::MAX);
}

#[test]
fn wakeups_are_a_prefix_of_arrivals() {
    let mut sem = Semaphore::new(1);
    let mut arrivals: Vec<u16> = Vec::new();
    let mut wakeups: Vec<u16> = Vec::new();
    let script: [Option<u16>; 12] = [
        Some(10),
        Some(11),
        Some(12),
        None,
        Some(13),
        None,
        None,
        None,
        None,
        Some(14),
        Some(15),
        None,
    ];
    for step in script.iter() {
        let result = match step {
            Some(pid) => sem.wait(ProcessId(*pid)),
            None => sem.signal(),
        };
        match result {
            SemaphoreResult::Block(pid) => arrivals.push(pid.0),
            SemaphoreResult::WakeUp(pid) => wakeups.push(pid.0),
            _ => {}
        }
        assert!(wakeups.len() <= arrivals.len());
        assert_eq!(&arrivals[..wakeups.len()], &wakeups[..]);
    }
    assert_eq!(arrivals, vec![11, 12, 13]);
    assert_eq!(wakeups, vec![11, 12, 13]);
    assert_eq!(sem.count, 1);
}

#[test]
fn a_key_is_made_once() {
    let mut set = SemaphoreSet::new();
    assert!(set.insert(5, 3));
    assert!(!set.insert(5, 9));
    assert_eq!(count_of(&set, 5), 3);
    assert!(set.insert(6, 0));
    assert_eq!(set.sems.len(), 2);
    assert!(set.contains(5) && set.contains(6) && !set.contains(7));
}

#[test]
fn a_missing_key_is_reported() {
    let mut set = SemaphoreSet::new();
    assert_eq!(set.wait(1, ProcessId(2)), SemaphoreResult::NotExist);
    assert_eq!(set.signal(1), SemaphoreResult::NotExist);
    assert!(!set.remove(1));
    assert_eq!(set.sems.len(), 0);
}

#[test]
fn removing_a_semaphore_drops_its_waiters() {
    let mut set = SemaphoreSet::new();
    set.insert(1, 0);
    assert_eq!(set.wait(1, ProcessId(4)), SemaphoreResult::Block(ProcessId(4)));
    assert!(set.remove(1));
    assert_eq!(set.signal(1), SemaphoreResult::NotExist);
    assert!(set.insert(1, 0));
    assert_eq!(queue_of(&set, 1), Vec::<u16>::new());
}

#[test]
fn keys_do_not_disturb_each_other() {
    let mut set = SemaphoreSet::new();
    set.insert(1, 1);
    set.insert(2, 0);
    assert_eq!(set.wait(2, ProcessId(4)), SemaphoreResult::Block(ProcessId(4)));
    assert_eq!(set.wait(1, ProcessId(5)), SemaphoreResult::Done);
    assert_eq!(count_of(&set, 1), 0);
    assert_eq!(queue_of(&set, 2), vec![4]);
    assert_eq!(set.signal(2), SemaphoreResult::WakeUp(ProcessId(4)));
    assert_eq!(count_of(&set, 2), 0);
}

#[test]
fn scrub_takes_a_process_out_of_every_queue() {
    let mut set = SemaphoreSet::new();
    set.insert(1, 0);
    set.insert(2, 0);
    set.wait(1, ProcessId(4));
    set.wait(1, ProcessId(5));
    set.wait(1, ProcessId(6));
    set.wait(2, ProcessId(5));
    set.scrub(ProcessId(5));
    assert_eq!(queue_of(&set, 1), vec![4, 6]);
    assert_eq!(queue_of(&set, 2), Vec::<u16>::new());
    assert_eq!(set.signal(1), SemaphoreResult::WakeUp(ProcessId(4)));
    assert_eq!(set.signal(1), SemaphoreResult::WakeUp(ProcessId(6)));
}

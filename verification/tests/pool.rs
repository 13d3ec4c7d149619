use hujingzhi::ports::{free_ports, next_candidate, Allocation, BindTest};
use hujingzhi::{allocate_port, get_entire_log, release_port, EventLog, LogEvent};
use std::collections::{HashSet, VecDeque};

fn pool(lo: u16, hi: u16, admin: u16) -> (VecDeque<u16>, HashSet<u16>, EventLog) {
    let mut log = EventLog::new();
    let free = free_ports(lo, hi, admin, &mut log);
    (free, HashSet::new(), log)
}

#[test]
fn fresh_pool_holds_the_range_in_order() {
    let (free, allocated, log) = pool(20000, 20010, 9000);
    assert_eq!(free, (20000..20010).collect::<VecDeque<u16>>());
    assert!(allocated.is_empty());
    assert!(get_entire_log(&log).is_empty());
}

#[test]
fn admin_port_is_skipped_with_a_warning() {
    let (free, _, log) = pool(20000, 20004, 20002);
    assert_eq!(free, VecDeque::from(vec![20000, 20001, 20003]));
    assert_eq!(
        get_entire_log(&log),
        vec![LogEvent::Warning {
            msg: "Loopback port range includes the admin port 20002, skipping it".to_string()
        }]
    );
}

#[test]
fn range_of_the_admin_port_alone_is_empty() {
    let (mut free, mut allocated, mut log) = pool(9000, 9001, 9000);
    assert!(free.is_empty());
    assert_eq!(next_candidate(&free), None);
    let mut emitted = Vec::new();
    let outcome = allocate_port(&mut free, &mut allocated, BindTest::Free, &mut log, &mut emitted);
    assert_eq!(outcome, Allocation::Exhausted);
    assert!(allocated.is_empty());
}

#[test]
fn empty_and_reversed_ranges_are_empty() {
    assert!(pool(5, 5, 0).0.is_empty());
    assert!(pool(9, 5, 0).0.is_empty());
}

#[test]
fn free_port_is_handed_out() {
    let (mut free, mut allocated, mut log) = pool(20000, 20010, 9000);
    let mut emitted = Vec::new();
    assert_eq!(next_candidate(&free), Some(20000));
    let outcome = allocate_port(&mut free, &mut allocated, BindTest::Free, &mut log, &mut emitted);
    assert_eq!(outcome, Allocation::Allocated { port: 20000 });
    assert!(allocated.contains(&20000));
    assert_eq!(free.front(), Some(&20001));
    assert_eq!(free.len(), 9);
    assert!(emitted.is_empty());
}

#[test]
fn port_in_use_goes_to_the_back_with_a_warning() {
    let (mut free, mut allocated, mut log) = pool(20000, 20010, 9000);
    let mut emitted = Vec::new();
    let outcome = allocate_port(&mut free, &mut allocated, BindTest::InUse, &mut log, &mut emitted);
    assert_eq!(outcome, Allocation::Retry);
    assert_eq!(free.back(), Some(&20000));
    assert_eq!(free.len(), 10);
    assert_eq!(next_candidate(&free), Some(20001));
    let warning = LogEvent::Warning { msg: "Port 20000 is in use, skipping".to_string() };
    assert_eq!(emitted, vec![warning.clone()]);
    assert_eq!(get_entire_log(&log), vec![warning]);
    let outcome = allocate_port(&mut free, &mut allocated, BindTest::Free, &mut log, &mut emitted);
    assert_eq!(outcome, Allocation::Allocated { port: 20001 });
    assert_eq!(free.back(), Some(&20000));
    assert!(!allocated.contains(&20000));
}

#[test]
fn failed_bind_test_drops_the_port() {
    let (mut free, mut allocated, mut log) = pool(20000, 20003, 9000);
    let mut emitted = Vec::new();
    let outcome = allocate_port(
        &mut free,
        &mut allocated,
        BindTest::Failed { message: "Failed to bind socket: denied".to_string() },
        &mut log,
        &mut emitted,
    );
    assert_eq!(outcome, Allocation::Failed { message: "Failed to bind socket: denied".to_string() });
    assert_eq!(free, VecDeque::from(vec![20001, 20002]));
    assert!(allocated.is_empty());
}

#[test]
fn released_port_is_reused_first() {
    let (mut free, mut allocated, mut log) = pool(20000, 20010, 9000);
    let mut emitted = Vec::new();
    allocate_port(&mut free, &mut allocated, BindTest::Free, &mut log, &mut emitted);
    allocate_port(&mut free, &mut allocated, BindTest::Free, &mut log, &mut emitted);
    release_port(&mut free, &mut allocated, 20000);
    assert_eq!(free.front(), Some(&20000));
    assert!(!allocated.contains(&20000));
    assert!(allocated.contains(&20001));
    let outcome = allocate_port(&mut free, &mut allocated, BindTest::Free, &mut log, &mut emitted);
    assert_eq!(outcome, Allocation::Allocated { port: 20000 });
}

#[test]
fn free_and_allocated_never_meet() {
    let (mut free, mut allocated, mut log) = pool(20000, 20006, 20003);
    let mut emitted = Vec::new();
    let tests = [true, false, true, true, false, true, false, false, true];
    for (i, ok) in tests.iter().enumerate() {
        let test = if *ok { BindTest::Free } else { BindTest::InUse };
        allocate_port(&mut free, &mut allocated, test, &mut log, &mut emitted);
        if i % 3 == 2 {
            if let Some(port) = allocated.iter().next().copied() {
                release_port(&mut free, &mut allocated, port);
            }
        }
        for port in free.iter() {
            assert!(!allocated.contains(port));
        }
        let distinct: HashSet<u16> = free.iter().copied().collect();
        assert_eq!(distinct.len(), free.len());
    }
}

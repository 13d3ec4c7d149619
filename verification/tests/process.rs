use hujingzhi::config::ProcessSpec;
use hujingzhi::control::{format_sets, format_status};
use hujingzhi::ipvs::{IpvsServer, IpvsService, IpvsState};
use hujingzhi::process::{
    collect_exited, count_connections, sunset_older, update_connection_counts, ProcessSet,
    RunningProcessEntry,
};
use hujingzhi::{get_entire_log, EventLog, LogEvent, ProcessStatus};

fn spec() -> ProcessSpec {
    ProcessSpec {
        name: "p".to_string(),
        command: vec!["/bin/true".to_string()],
        cwd: None,
        uid: None,
        gid: None,
        env: vec![],
        receives: vec![],
        health: None,
    }
}

fn entry(name: &str, status: ProcessStatus, pid: Option<u32>) -> (ProcessSpec, RunningProcessEntry) {
    (
        spec(),
        RunningProcessEntry {
            status,
            approx_start: 0,
            approx_conn_count: 0,
            process: 0,
            pid,
            name: name.to_string(),
            port_allocations: vec![],
        },
    )
}

fn names_and_statuses(versions: &Vec<(ProcessSpec, RunningProcessEntry)>) -> Vec<(String, ProcessStatus)> {
    versions.iter().map(|(_, e)| (e.name.clone(), e.status)).collect()
}

#[test]
fn new_entry_starts_with_the_next_number() {
    let mut counter: usize = 41;
    let e = RunningProcessEntry::new(
        9,
        Some(77),
        vec![("s".to_string(), 20000)],
        "calm-heron",
        &mut counter,
        123,
    );
    assert_eq!(counter, 42);
    assert_eq!(
        e,
        RunningProcessEntry {
            status: ProcessStatus::Starting,
            approx_start: 123,
            approx_conn_count: 0,
            process: 9,
            pid: Some(77),
            name: "calm-heron-41-77".to_string(),
            port_allocations: vec![("s".to_string(), 20000)],
        }
    );
}

#[test]
fn status_change_records_exactly_one_event() {
    let (_, mut e) = entry("a", ProcessStatus::Starting, Some(1));
    let mut log = EventLog::new();
    let mut emitted = Vec::new();
    e.update_status(ProcessStatus::Running, &mut log, &mut emitted);
    assert_eq!(e.status, ProcessStatus::Running);
    let expected =
        vec![LogEvent::StatusChange { name: "a".to_string(), status: ProcessStatus::Running }];
    assert_eq!(emitted, expected);
    assert_eq!(get_entire_log(&log), expected);
}

#[test]
fn older_running_versions_are_sunset_newest_first() {
    let mut versions = vec![
        entry("v0", ProcessStatus::Running, Some(10)),
        entry("v1", ProcessStatus::Unhealthy, Some(11)),
        entry("v2", ProcessStatus::Running, None),
        entry("v3", ProcessStatus::Running, Some(13)),
        entry("v4", ProcessStatus::Starting, Some(14)),
    ];
    let mut log = EventLog::new();
    let mut emitted = Vec::new();
    let mut signals = Vec::new();
    sunset_older(&mut versions, &mut log, &mut emitted, &mut signals);
    assert_eq!(
        names_and_statuses(&versions),
        vec![
            ("v0".to_string(), ProcessStatus::Sunsetting),
            ("v1".to_string(), ProcessStatus::Unhealthy),
            ("v2".to_string(), ProcessStatus::Sunsetting),
            ("v3".to_string(), ProcessStatus::Running),
            ("v4".to_string(), ProcessStatus::Starting),
        ]
    );
    assert_eq!(
        emitted,
        vec![
            LogEvent::StatusChange { name: "v2".to_string(), status: ProcessStatus::Sunsetting },
            LogEvent::StatusChange { name: "v0".to_string(), status: ProcessStatus::Sunsetting },
        ]
    );
    assert_eq!(signals, vec![10]);
    assert_eq!(get_entire_log(&log), emitted);
    // a second walk changes nothing
    sunset_older(&mut versions, &mut log, &mut emitted, &mut signals);
    assert_eq!(emitted.len(), 2);
    assert_eq!(signals, vec![10]);
}

#[test]
fn single_running_version_is_left_alone() {
    let mut versions = vec![
        entry("v0", ProcessStatus::Sunsetting, Some(10)),
        entry("v1", ProcessStatus::Running, Some(11)),
    ];
    let mut log = EventLog::new();
    let mut emitted = Vec::new();
    let mut signals = Vec::new();
    sunset_older(&mut versions, &mut log, &mut emitted, &mut signals);
    assert!(emitted.is_empty());
    assert!(signals.is_empty());
    assert_eq!(versions[1].1.status, ProcessStatus::Running);
}

#[test]
fn exited_versions_are_collected_in_order() {
    let mut versions = vec![
        entry("v0", ProcessStatus::Exited { exit_status: 0, approx_time: 1 }, None),
        entry("v1", ProcessStatus::Sunsetting, None),
        entry("v2", ProcessStatus::Exited { exit_status: -1, approx_time: 2 }, None),
        entry("v3", ProcessStatus::Running, None),
        entry("v4", ProcessStatus::Exited { exit_status: 9, approx_time: 3 }, None),
    ];
    collect_exited(&mut versions);
    assert_eq!(
        names_and_statuses(&versions),
        vec![
            ("v1".to_string(), ProcessStatus::Sunsetting),
            ("v3".to_string(), ProcessStatus::Running),
        ]
    );
    let mut none: Vec<(ProcessSpec, RunningProcessEntry)> = vec![];
    collect_exited(&mut none);
    assert!(none.is_empty());
}

#[test]
fn connections_are_summed_over_ports() {
    let snapshot = Some(IpvsState {
        services: vec![IpvsService {
            local_address: "127.0.0.5".to_string(),
            local_port: 80,
            scheduler: "rr".to_string(),
            servers: vec![
                IpvsServer { address: "127.0.0.1".to_string(), port: 20000, active_conn: 4, weight: 1 },
                IpvsServer { address: "127.0.0.1".to_string(), port: 20001, active_conn: 6, weight: 1 },
                IpvsServer {
                    address: "127.0.0.1".to_string(),
                    port: 20002,
                    active_conn: i32::MAX,
                    weight: 1,
                },
            ],
        }],
    });
    let ports = vec![
        ("a".to_string(), 20000),
        ("b".to_string(), 20001),
        ("c".to_string(), 20009),
    ];
    assert_eq!(count_connections(&ports, &snapshot), 10);
    assert_eq!(count_connections(&ports, &None), 0);
    let big = vec![("a".to_string(), 20002), ("b".to_string(), 20002)];
    assert_eq!(count_connections(&big, &snapshot), 2 * (i32::MAX as i128));
    let mut versions = vec![entry("v0", ProcessStatus::Running, None)];
    versions[0].1.port_allocations = ports;
    versions[0].1.approx_conn_count = 99;
    update_connection_counts(&mut versions, &snapshot);
    assert_eq!(versions[0].1.approx_conn_count, 10);
}

#[test]
fn statuses_read_as_in_the_report() {
    assert_eq!(format_status(&ProcessStatus::Starting), "Starting");
    assert_eq!(format_status(&ProcessStatus::Running), "Running");
    assert_eq!(format_status(&ProcessStatus::Unhealthy), "Unhealthy");
    assert_eq!(format_status(&ProcessStatus::Sunsetting), "Sunsetting");
    assert_eq!(
        format_status(&ProcessStatus::Exited { exit_status: -1, approx_time: 1700000000 }),
        "Exited { exit_status: -1, approx_time: 1700000000 }"
    );
    assert_eq!(
        format_status(&ProcessStatus::Exited { exit_status: -1, approx_time: 1700000000 }),
        format!("{:?}", ProcessStatus::Exited { exit_status: -1, approx_time: 1700000000 })
    );
}

#[test]
fn report_lists_sets_and_their_versions() {
    let sets = vec![
        ProcessSet {
            name: "web".to_string(),
            running_versions: vec![
                entry("a-b-0-1", ProcessStatus::Sunsetting, None),
                entry("c-d-1-2", ProcessStatus::Running, None),
            ],
        },
        ProcessSet::new("idle".to_string()),
    ];
    assert_eq!(
        format_sets(&sets),
        "web:\n  a-b-0-1: (Sunsetting)\n  c-d-1-2: (Running)\nidle:\n"
    );
    assert_eq!(format_sets(&vec![]), "");
}

use hujingzhi::events::{record, LOG_MAX_SIZE};
use hujingzhi::{get_entire_log, log_event, EventLog, LogEvent, ProcessStatus};

#[test]
fn log_keeps_the_newest_thousand() {
    let mut log = EventLog::new();
    for i in 0..1005u32 {
        log_event(&mut log, LogEvent::Warning { msg: format!("w{}", i) });
    }
    let events = get_entire_log(&log);
    assert_eq!(events.len(), 1000);
    assert_eq!(log.len(), LOG_MAX_SIZE);
    assert_eq!(events[0], LogEvent::Warning { msg: "w5".to_string() });
    assert_eq!(events[999], LogEvent::Warning { msg: "w1004".to_string() });
}

#[test]
fn log_of_exactly_a_thousand_drops_nothing() {
    let mut log = EventLog::new();
    for i in 0..1000u32 {
        log_event(&mut log, LogEvent::Error { msg: format!("e{}", i) });
    }
    let events = get_entire_log(&log);
    assert_eq!(events.len(), 1000);
    assert_eq!(events[0], LogEvent::Error { msg: "e0".to_string() });
}

#[test]
fn empty_log_is_empty() {
    let log = EventLog::new();
    assert_eq!(get_entire_log(&log), Vec::<LogEvent>::new());
    assert_eq!(log.len(), 0);
}

#[test]
fn log_keeps_order_and_content() {
    let mut log = EventLog::new();
    log_event(
        &mut log,
        LogEvent::StatusChange { name: "a-b-0-1".to_string(), status: ProcessStatus::Running },
    );
    log_event(
        &mut log,
        LogEvent::WeightChange { service: "s".to_string(), port: 20000, weight: 1 },
    );
    let events = get_entire_log(&log);
    assert_eq!(
        events,
        vec![
            LogEvent::StatusChange { name: "a-b-0-1".to_string(), status: ProcessStatus::Running },
            LogEvent::WeightChange { service: "s".to_string(), port: 20000, weight: 1 },
        ]
    );
}

#[test]
fn record_adds_to_log_and_to_step() {
    let mut log = EventLog::new();
    let mut emitted = Vec::new();
    record(&mut log, &mut emitted, LogEvent::Warning { msg: "x".to_string() });
    assert_eq!(emitted, vec![LogEvent::Warning { msg: "x".to_string() }]);
    assert_eq!(get_entire_log(&log), emitted);
}

#[test]
fn status_weight_is_one_only_when_running() {
    assert_eq!(ProcessStatus::Running.weight(), 1);
    assert_eq!(ProcessStatus::Starting.weight(), 0);
    assert_eq!(ProcessStatus::Unhealthy.weight(), 0);
    assert_eq!(ProcessStatus::Sunsetting.weight(), 0);
    assert_eq!(ProcessStatus::Exited { exit_status: 0, approx_time: 1 }.weight(), 0);
}

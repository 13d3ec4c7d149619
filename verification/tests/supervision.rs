use hujingzhi::config::{
    HealthCheckSpec, HujingzhiConfig, HujingzhiTarget, ProcessSpec, ServerConfig, ServiceSpec,
};
use hujingzhi::control::RequestError;
use hujingzhi::health::ProbeReply;
use hujingzhi::ipvs::{parse_host_and_port, IpvsServer, IpvsService, IpvsState};
use hujingzhi::ports::BindTest;
use hujingzhi::state::{Cursor, Event, HousekeepingError, Request};
use hujingzhi::validation::{NameField, TargetError};
use hujingzhi::{ClientRequest, ClientResponse, GlobalState, LogEvent, ProcessStatus};

const TICK: u64 = 3_000_000_000;

struct World {
    ipvs: Vec<IpvsService>,
    busy_ports: Vec<u16>,
    health: ProbeReply,
    exited: Vec<(u64, Option<i32>)>,
    next_process: u64,
    spawn_error: Option<String>,
    snapshot_error: Option<String>,
    reset_error: Option<String>,
    poll_error: Option<String>,
    weight_error: Option<String>,
    bind_error: Option<String>,
    signals: Vec<u32>,
    events: Vec<LogEvent>,
    requests: Vec<Request>,
    probes: Vec<String>,
}

fn world() -> World {
    World {
        ipvs: vec![],
        busy_ports: vec![],
        health: ProbeReply::Status { code: 200 },
        exited: vec![],
        next_process: 1,
        spawn_error: None,
        snapshot_error: None,
        reset_error: None,
        poll_error: None,
        weight_error: None,
        bind_error: None,
        signals: vec![],
        events: vec![],
        requests: vec![],
        probes: vec![],
    }
}

fn copy_reply(reply: &ProbeReply) -> ProbeReply {
    match reply {
        ProbeReply::Status { code } => ProbeReply::Status { code: *code },
        ProbeReply::ConnectionFailed => ProbeReply::ConnectionFailed,
        ProbeReply::Failed { message } => ProbeReply::Failed { message: message.clone() },
    }
}

impl World {
    fn weight_of(&self, host: &str, port: u16, server_port: u16) -> Option<i32> {
        self.ipvs
            .iter()
            .find(|s| s.local_address == host && s.local_port == port)
            .and_then(|s| s.servers.iter().find(|r| r.port == server_port).map(|r| r.weight))
    }

    fn answer(&mut self, request: &Request) -> Event {
        match request {
            Request::Snapshot => match &self.snapshot_error {
                Some(message) => Event::Failed { message: message.clone() },
                None => Event::Snapshot { state: IpvsState { services: self.ipvs.clone() } },
            },
            Request::ResetService { spec } => {
                if let Some(message) = &self.reset_error {
                    return Event::Failed { message: message.clone() };
                }
                let (host, port) = parse_host_and_port(&spec.on).unwrap();
                self.ipvs.retain(|s| !(s.local_address == host && s.local_port == port));
                self.ipvs.push(IpvsService {
                    local_address: host,
                    local_port: port,
                    scheduler: "rr".to_string(),
                    servers: vec![],
                });
                Event::ServiceReset
            }
            Request::TestPort { port } => Event::PortTested {
                test: if let Some(message) = &self.bind_error {
                    BindTest::Failed { message: message.clone() }
                } else if self.busy_ports.contains(port) {
                    BindTest::InUse
                } else {
                    BindTest::Free
                },
            },
            Request::Spawn { .. } => match &self.spawn_error {
                Some(message) => Event::Failed { message: message.clone() },
                None => {
                    let process = self.next_process;
                    self.next_process += 1;
                    Event::Spawned { process, pid: Some(1000 + process as u32) }
                }
            },
            Request::Probe { url } => {
                self.probes.push(url.clone());
                Event::Probed { reply: copy_reply(&self.health) }
            }
            Request::PollExit { process } => {
                if let Some(message) = &self.poll_error {
                    return Event::Failed { message: message.clone() };
                }
                match self.exited.iter().find(|(p, _)| p == process) {
                    Some((_, code)) => Event::Exited { code: *code, approx_time: 1_700_000_000 },
                    None => Event::StillRunning,
                }
            }
            Request::SetWeight { service, port, weight } => {
                if let Some(message) = &self.weight_error {
                    return Event::Failed { message: message.clone() };
                }
                let (host, service_port) = parse_host_and_port(&service.on).unwrap();
                let found = self
                    .ipvs
                    .iter_mut()
                    .find(|s| s.local_address == host && s.local_port == service_port)
                    .unwrap();
                match found.servers.iter_mut().find(|r| r.port == *port) {
                    Some(server) => server.weight = *weight,
                    None => found.servers.push(IpvsServer {
                        address: "127.0.0.1".to_string(),
                        port: *port,
                        active_conn: 0,
                        weight: *weight,
                    }),
                }
                Event::WeightSet
            }
            Request::Done | Request::Failed { .. } => unreachable!(),
        }
    }

    fn pass(&mut self, state: &mut GlobalState, now: u64) -> Request {
        let mut step = state.housekeeping(Event::Tick, now);
        loop {
            self.events.extend(step.events.iter().cloned());
            self.signals.extend(step.signals.iter().copied());
            match step.request {
                Request::Done | Request::Failed { .. } => return step.request,
                _ => {}
            }
            let event = self.answer(&step.request);
            self.requests.push(step.request);
            step = state.housekeeping(event, now);
        }
    }
}

fn config(lo: u16, hi: u16, admin: u16) -> HujingzhiConfig {
    HujingzhiConfig {
        server: ServerConfig {
            admin_host: "127.0.0.1".to_string(),
            admin_port: admin,
            loopback_ports: (lo, hi),
        },
    }
}

fn process(name: &str, receives: &[&str], health: Option<(&str, &str)>) -> ProcessSpec {
    ProcessSpec {
        name: name.to_string(),
        command: vec!["/bin/server".to_string(), "--flag".to_string()],
        cwd: None,
        uid: None,
        gid: None,
        env: vec![],
        receives: receives.iter().map(|s| s.to_string()).collect(),
        health: health.map(|(service, path)| HealthCheckSpec {
            service: service.to_string(),
            path: path.to_string(),
        }),
    }
}

fn service(name: &str, on: &str) -> ServiceSpec {
    ServiceSpec { name: name.to_string(), on: on.to_string() }
}

fn one_process_target() -> HujingzhiTarget {
    HujingzhiTarget {
        processes: vec![process("p", &["s"], Some(("s", "/h")))],
        services: vec![service("s", "127.0.0.5:80")],
    }
}

fn supervisor_with(target: HujingzhiTarget, lo: u16, hi: u16, admin: u16) -> GlobalState {
    GlobalState::new(
        &config(lo, hi, admin),
        "text".to_string(),
        target,
        vec!["brave".to_string()],
        vec!["otter".to_string()],
    )
}

fn supervisor(target: HujingzhiTarget) -> GlobalState {
    supervisor_with(target, 20000, 20010, 9000)
}

fn statuses(state: &GlobalState, set: usize) -> Vec<ProcessStatus> {
    state.processes_by_name[set].running_versions.iter().map(|(_, e)| e.status).collect()
}

fn running(state: &GlobalState, set: usize) -> usize {
    statuses(state, set).iter().filter(|s| **s == ProcessStatus::Running).count()
}

fn steady(state: &mut GlobalState, world: &mut World) {
    assert_eq!(world.pass(state, 0), Request::Done);
    assert_eq!(world.pass(state, TICK), Request::Done);
}

#[test]
fn single_process_rolls_out_to_running() {
    let mut state = supervisor(one_process_target());
    let mut world = world();
    assert_eq!(world.pass(&mut state, 0), Request::Done);
    assert_eq!(statuses(&state, 0), vec![ProcessStatus::Starting]);
    assert!(world.probes.is_empty());
    assert_eq!(world.pass(&mut state, TICK), Request::Done);
    assert_eq!(statuses(&state, 0), vec![ProcessStatus::Running]);
    assert_eq!(world.probes, vec!["http://127.0.0.1:20000/h".to_string()]);
    assert_eq!(world.weight_of("127.0.0.5", 80, 20000), Some(1));
    let entry = &state.processes_by_name[0].running_versions[0].1;
    assert_eq!(entry.name, "brave-otter-0-1001");
    assert_eq!(entry.port_allocations, vec![("s".to_string(), 20000)]);
    assert_eq!(entry.approx_start, 0);
    assert!(state.allocated_ports.contains(&20000));
    assert_eq!(
        world.events,
        vec![
            LogEvent::CreateIpvsService { spec: service("s", "127.0.0.5:80") },
            LogEvent::LaunchProcess {
                name: "brave-otter-0-1001".to_string(),
                process_name: "p".to_string(),
                port_allocations: vec![("s".to_string(), 20000)],
            },
            LogEvent::StatusChange {
                name: "brave-otter-0-1001".to_string(),
                status: ProcessStatus::Running,
            },
            LogEvent::WeightChange { service: "s".to_string(), port: 20000, weight: 1 },
        ]
    );
}

#[test]
fn spawn_request_carries_command_and_port_variable() {
    let mut state = supervisor(one_process_target());
    let mut world = world();
    world.pass(&mut state, 0);
    let spawn = world
        .requests
        .iter()
        .find_map(|r| match r {
            Request::Spawn { process_spec, env } => Some((process_spec.clone(), env.clone())),
            _ => None,
        })
        .unwrap();
    assert_eq!(spawn.0, process("p", &["s"], Some(("s", "/h"))));
    assert_eq!(spawn.1, vec![("SERVICE_PORT_S".to_string(), "20000".to_string())]);
}

#[test]
fn steady_state_is_a_fixed_point() {
    let mut state = supervisor(one_process_target());
    let mut world = world();
    steady(&mut state, &mut world);
    assert_eq!(world.pass(&mut state, 2 * TICK), Request::Done);
    let events = world.events.len();
    let before = statuses(&state, 0);
    for tick in 3..8 {
        world.requests.clear();
        assert_eq!(world.pass(&mut state, tick * TICK), Request::Done);
        assert_eq!(world.events.len(), events);
        assert_eq!(statuses(&state, 0), before);
        assert_eq!(
            world.requests,
            vec![Request::Snapshot, Request::PollExit { process: 1 }]
        );
    }
    assert_eq!(state.processes_by_name[0].running_versions.len(), 1);
}

#[test]
fn superseded_version_sunsets() {
    let mut state = supervisor(one_process_target());
    let mut world = world();
    steady(&mut state, &mut world);
    let mut changed = one_process_target();
    changed.processes[0].env.push(("MODE".to_string(), "new".to_string()));
    let response = state
        .handle_rest_request(
            ClientRequest::SetTarget { target: "new text".to_string() },
            Some(changed),
        )
        .unwrap();
    assert_eq!(response, ClientResponse::Success { message: Some("Target updated".to_string()) });
    world.events.clear();
    assert_eq!(world.pass(&mut state, 2 * TICK), Request::Done);
    assert_eq!(statuses(&state, 0), vec![ProcessStatus::Running, ProcessStatus::Starting]);
    assert!(world.signals.is_empty());
    assert_eq!(world.pass(&mut state, 3 * TICK), Request::Done);
    assert_eq!(statuses(&state, 0), vec![ProcessStatus::Sunsetting, ProcessStatus::Running]);
    assert_eq!(world.signals, vec![1001]);
    assert_eq!(world.weight_of("127.0.0.5", 80, 20000), Some(0));
    assert_eq!(world.weight_of("127.0.0.5", 80, 20001), Some(1));
    let new_entry = &state.processes_by_name[0].running_versions[1].1;
    assert_eq!(new_entry.port_allocations, vec![("s".to_string(), 20001)]);
    assert_eq!(new_entry.name, "brave-otter-1-1002");
    assert_eq!(
        world.events,
        vec![
            LogEvent::LaunchProcess {
                name: "brave-otter-1-1002".to_string(),
                process_name: "p".to_string(),
                port_allocations: vec![("s".to_string(), 20001)],
            },
            LogEvent::StatusChange {
                name: "brave-otter-1-1002".to_string(),
                status: ProcessStatus::Running,
            },
            LogEvent::StatusChange {
                name: "brave-otter-0-1001".to_string(),
                status: ProcessStatus::Sunsetting,
            },
            LogEvent::WeightChange { service: "s".to_string(), port: 20000, weight: 0 },
            LogEvent::WeightChange { service: "s".to_string(), port: 20001, weight: 1 },
        ]
    );
    world.exited.push((1, Some(0)));
    assert_eq!(world.pass(&mut state, 4 * TICK), Request::Done);
    assert_eq!(statuses(&state, 0), vec![ProcessStatus::Running]);
    assert_eq!(state.processes_by_name[0].running_versions[0].1.name, "brave-otter-1-1002");
    assert_eq!(
        world.events.last(),
        Some(&LogEvent::StatusChange {
            name: "brave-otter-0-1001".to_string(),
            status: ProcessStatus::Exited { exit_status: 0, approx_time: 1_700_000_000 },
        })
    );
    // the port of the exited child stays handed out
    assert!(state.allocated_ports.contains(&20000));
    assert!(!state.free_loopback_ports.contains(&20000));
}

#[test]
fn sunset_is_recorded_once() {
    let mut state = supervisor(one_process_target());
    let mut world = world();
    steady(&mut state, &mut world);
    let mut changed = one_process_target();
    changed.processes[0].env.push(("MODE".to_string(), "new".to_string()));
    state
        .handle_rest_request(ClientRequest::SetTarget { target: "t".to_string() }, Some(changed))
        .unwrap();
    for tick in 2..7 {
        assert_eq!(world.pass(&mut state, tick * TICK), Request::Done);
        assert!(running(&state, 0) <= 1);
    }
    let sunsets = world
        .events
        .iter()
        .filter(|e| matches!(e, LogEvent::StatusChange { status: ProcessStatus::Sunsetting, .. }))
        .count();
    assert_eq!(sunsets, 1);
    assert_eq!(world.signals, vec![1001]);
}

#[test]
fn failing_health_turns_unhealthy_and_drains() {
    let mut state = supervisor(one_process_target());
    let mut world = world();
    steady(&mut state, &mut world);
    world.health = ProbeReply::Status { code: 500 };
    world.events.clear();
    world.probes.clear();
    // the health limiter was first asked at the second pass; it opens once
    // more than sixty seconds have gone by since then
    for tick in 2..=21 {
        assert_eq!(world.pass(&mut state, tick * TICK), Request::Done);
        assert_eq!(statuses(&state, 0), vec![ProcessStatus::Running]);
    }
    assert!(world.probes.is_empty());
    assert_eq!(world.pass(&mut state, 22 * TICK), Request::Done);
    assert_eq!(statuses(&state, 0), vec![ProcessStatus::Unhealthy]);
    assert_eq!(world.probes, vec!["http://127.0.0.1:20000/h".to_string()]);
    assert_eq!(world.weight_of("127.0.0.5", 80, 20000), Some(0));
    assert_eq!(
        world.events,
        vec![
            LogEvent::StatusChange {
                name: "brave-otter-0-1001".to_string(),
                status: ProcessStatus::Unhealthy,
            },
            LogEvent::WeightChange { service: "s".to_string(), port: 20000, weight: 0 },
        ]
    );
    // an unhealthy child is not probed back to running
    world.health = ProbeReply::Status { code: 200 };
    for tick in 23..50 {
        assert_eq!(world.pass(&mut state, tick * TICK), Request::Done);
    }
    assert_eq!(statuses(&state, 0), vec![ProcessStatus::Unhealthy]);
}

#[test]
fn refused_connection_keeps_the_child_starting() {
    let mut state = supervisor(one_process_target());
    let mut world = world();
    world.health = ProbeReply::ConnectionFailed;
    for tick in 0..4 {
        assert_eq!(world.pass(&mut state, tick * TICK), Request::Done);
    }
    assert_eq!(statuses(&state, 0), vec![ProcessStatus::Starting]);
    assert_eq!(world.probes.len(), 3);
    assert_eq!(world.weight_of("127.0.0.5", 80, 20000), None);
}

#[test]
fn port_in_use_is_skipped() {
    let mut state = supervisor(one_process_target());
    let mut world = world();
    world.busy_ports.push(20000);
    assert_eq!(world.pass(&mut state, 0), Request::Done);
    let entry = &state.processes_by_name[0].running_versions[0].1;
    assert_eq!(entry.port_allocations, vec![("s".to_string(), 20001)]);
    assert_eq!(state.free_loopback_ports.back(), Some(&20000));
    assert!(!state.allocated_ports.contains(&20000));
    assert!(state.allocated_ports.contains(&20001));
    assert!(world
        .events
        .contains(&LogEvent::Warning { msg: "Port 20000 is in use, skipping".to_string() }));
}

#[test]
fn invalid_target_is_rejected_and_the_old_one_stays() {
    let mut state = supervisor(one_process_target());
    let bad = HujingzhiTarget {
        processes: vec![],
        services: vec![service("s", "127.0.0.5:80"), service("s", "127.0.0.6:80")],
    };
    let error = state
        .handle_rest_request(ClientRequest::SetTarget { target: "bad".to_string() }, Some(bad))
        .unwrap_err();
    assert_eq!(
        error,
        RequestError::InvalidTarget {
            error: TargetError::DuplicateName { name: "s".to_string(), field: NameField::Services }
        }
    );
    assert_eq!(
        error.response(),
        ClientResponse::Error { message: "Duplicate name s in services".to_string() }
    );
    assert_eq!(state.target, one_process_target());
    assert_eq!(state.target_text, "text");
    assert_eq!(
        state.handle_rest_request(ClientRequest::GetTarget, None),
        Ok(ClientResponse::Target { target: "text".to_string() })
    );
}

#[test]
fn failed_spawn_leaks_no_port() {
    let mut state = supervisor(one_process_target());
    let mut world = world();
    world.spawn_error = Some("No such file or directory (os error 2)".to_string());
    assert_eq!(world.pass(&mut state, 0), Request::Done);
    assert!(state.processes_by_name[0].running_versions.is_empty());
    assert!(state.allocated_ports.is_empty());
    assert_eq!(state.free_loopback_ports.front(), Some(&20000));
    assert_eq!(state.free_loopback_ports.len(), 10);
    assert!(!world.events.iter().any(|e| matches!(e, LogEvent::LaunchProcess { .. })));
    assert_eq!(
        world.events.last(),
        Some(&LogEvent::Error {
            msg: "Failed to launch process p: No such file or directory (os error 2)".to_string()
        })
    );
    // the next pass tries again
    world.spawn_error = None;
    assert_eq!(world.pass(&mut state, TICK), Request::Done);
    assert_eq!(statuses(&state, 0), vec![ProcessStatus::Starting]);
}

#[test]
fn empty_command_fails_the_launch_without_a_spawn() {
    let mut target = one_process_target();
    target.processes[0].command.clear();
    let mut state = supervisor(target);
    let mut world = world();
    assert_eq!(world.pass(&mut state, 0), Request::Done);
    assert!(!world.requests.iter().any(|r| matches!(r, Request::Spawn { .. })));
    assert!(state.allocated_ports.is_empty());
    assert_eq!(
        world.events.last(),
        Some(&LogEvent::Error { msg: "Failed to launch process p: Empty command".to_string() })
    );
}

#[test]
fn empty_pool_fails_every_launch_that_needs_a_port() {
    let mut state = supervisor_with(one_process_target(), 9000, 9001, 9000);
    assert!(state.free_loopback_ports.is_empty());
    let mut world = world();
    assert_eq!(world.pass(&mut state, 0), Request::Done);
    assert!(state.processes_by_name[0].running_versions.is_empty());
    assert_eq!(
        world.events,
        vec![
            LogEvent::CreateIpvsService { spec: service("s", "127.0.0.5:80") },
            LogEvent::Error {
                msg: "Failed to allocate ports when launching process: No more free loopback ports"
                    .to_string()
            },
            LogEvent::Error {
                msg: "Failed to launch process p: No more free loopback ports".to_string()
            },
        ]
    );
    let log = match state.handle_rest_request(ClientRequest::Status, None).unwrap() {
        ClientResponse::Status { events, .. } => events,
        _ => unreachable!(),
    };
    assert_eq!(
        log[0],
        LogEvent::Warning {
            msg: "Loopback port range includes the admin port 9000, skipping it".to_string()
        }
    );
}

#[test]
fn exhaustion_releases_the_ports_of_the_attempt() {
    let target = HujingzhiTarget {
        processes: vec![process("p", &["a", "b", "c"], None)],
        services: vec![
            service("a", "127.0.0.5:80"),
            service("b", "127.0.0.5:81"),
            service("c", "127.0.0.5:82"),
        ],
    };
    let mut state = supervisor_with(target, 20000, 20002, 9000);
    let mut world = world();
    assert_eq!(world.pass(&mut state, 0), Request::Done);
    assert!(state.allocated_ports.is_empty());
    let mut free: Vec<u16> = state.free_loopback_ports.iter().copied().collect();
    free.sort();
    assert_eq!(free, vec![20000, 20001]);
    assert!(state.processes_by_name[0].running_versions.is_empty());
}

#[test]
fn child_that_exits_while_starting_never_runs() {
    let mut state = supervisor(one_process_target());
    let mut world = world();
    world.exited.push((1, None));
    assert_eq!(world.pass(&mut state, 0), Request::Done);
    assert!(state.processes_by_name[0].running_versions.is_empty());
    let changes: Vec<&LogEvent> =
        world.events.iter().filter(|e| matches!(e, LogEvent::StatusChange { .. })).collect();
    assert_eq!(
        changes,
        vec![&LogEvent::StatusChange {
            name: "brave-otter-0-1001".to_string(),
            status: ProcessStatus::Exited { exit_status: -1, approx_time: 1_700_000_000 },
        }]
    );
}

#[test]
fn same_target_changes_nothing() {
    let mut state = supervisor(one_process_target());
    let mut world = world();
    steady(&mut state, &mut world);
    let response = state
        .handle_rest_request(
            ClientRequest::SetTarget { target: "same again".to_string() },
            Some(one_process_target()),
        )
        .unwrap();
    assert_eq!(
        response,
        ClientResponse::Success { message: Some("(no changes made)".to_string()) }
    );
    assert_eq!(state.target_text, "same again");
    world.events.clear();
    world.requests.clear();
    assert_eq!(world.pass(&mut state, 2 * TICK), Request::Done);
    assert!(world.events.is_empty());
    assert_eq!(statuses(&state, 0), vec![ProcessStatus::Running]);
    assert!(!world.requests.iter().any(|r| matches!(r, Request::Spawn { .. })));
}

#[test]
fn ping_and_status() {
    let mut state = supervisor(one_process_target());
    assert_eq!(state.handle_rest_request(ClientRequest::Ping, None), Ok(ClientResponse::Pong));
    match state.handle_rest_request(ClientRequest::Status, None).unwrap() {
        ClientResponse::Status { events, status, ipvs_state } => {
            assert!(events.is_empty());
            assert_eq!(status, "");
            assert_eq!(ipvs_state, None);
        }
        _ => unreachable!(),
    }
    let mut world = world();
    steady(&mut state, &mut world);
    world.exited.push((1, Some(3)));
    match state.handle_rest_request(ClientRequest::Status, None).unwrap() {
        ClientResponse::Status { events, status, ipvs_state } => {
            assert_eq!(events, world.events);
            assert_eq!(status, "p:\n  brave-otter-0-1001: (Running)\n");
            assert_eq!(ipvs_state.unwrap().services.len(), 1);
        }
        _ => unreachable!(),
    }
}

#[test]
fn set_target_without_parsed_form_or_mid_pass_is_refused() {
    let mut state = supervisor(one_process_target());
    assert_eq!(
        state.handle_rest_request(ClientRequest::SetTarget { target: "t".to_string() }, None),
        Err(RequestError::NotParsed)
    );
    let step = state.housekeeping(Event::Tick, 0);
    assert_eq!(step.request, Request::Snapshot);
    assert_eq!(state.cursor, Cursor::AwaitSnapshot);
    assert_eq!(
        state.handle_rest_request(
            ClientRequest::SetTarget { target: "t".to_string() },
            Some(HujingzhiTarget::default())
        ),
        Err(RequestError::Busy)
    );
    assert_eq!(state.target, one_process_target());
}

#[test]
fn failed_snapshot_gives_the_pass_up() {
    let mut state = supervisor(one_process_target());
    let mut world = world();
    world.snapshot_error = Some("ipvsadm: not found".to_string());
    assert_eq!(
        world.pass(&mut state, 0),
        Request::Failed {
            error: HousekeepingError::Adapter { message: "ipvsadm: not found".to_string() }
        }
    );
    assert_eq!(state.cursor, Cursor::Idle);
    assert_eq!(
        world.events,
        vec![LogEvent::Error { msg: "Housekeeping error: ipvsadm: not found".to_string() }]
    );
    assert_eq!(state.last_ipvs_state, None);
    // the next pass starts afresh
    world.snapshot_error = None;
    assert_eq!(world.pass(&mut state, TICK), Request::Done);
}

#[test]
fn answer_that_does_not_fit_gives_the_pass_up() {
    let mut state = supervisor(one_process_target());
    let step = state.housekeeping(Event::WeightSet, 0);
    assert_eq!(step.request, Request::Failed { error: HousekeepingError::UnexpectedEvent });
    assert_eq!(
        step.events,
        vec![LogEvent::Error { msg: "Housekeeping error: Unexpected event".to_string() }]
    );
    assert_eq!(state.cursor, Cursor::Idle);
}

#[test]
fn port_of_a_service_the_target_dropped_is_an_error() {
    let mut state = supervisor(one_process_target());
    let mut world = world();
    steady(&mut state, &mut world);
    let no_service = HujingzhiTarget {
        processes: vec![process("p", &["s"], Some(("s", "/h")))],
        services: vec![],
    };
    state
        .handle_rest_request(ClientRequest::SetTarget { target: "t".to_string() }, Some(no_service))
        .unwrap();
    assert_eq!(
        world.pass(&mut state, 2 * TICK),
        Request::Failed { error: HousekeepingError::ServiceNotFound { service: "s".to_string() } }
    );
    assert_eq!(
        world.events.last(),
        Some(&LogEvent::Error { msg: "Housekeeping error: BUG: Service s not found".to_string() })
    );
}

#[test]
fn health_check_on_a_service_without_port_is_an_error() {
    let target = HujingzhiTarget {
        processes: vec![process("p", &["s"], Some(("other", "/h")))],
        services: vec![service("s", "127.0.0.5:80")],
    };
    let mut state = supervisor(target);
    let mut world = world();
    assert_eq!(world.pass(&mut state, 0), Request::Done);
    assert_eq!(
        world.pass(&mut state, TICK),
        Request::Failed {
            error: HousekeepingError::NoPortForService { service: "other".to_string() }
        }
    );
    assert_eq!(
        world.events.last(),
        Some(&LogEvent::Error {
            msg: "Housekeeping error: BUG: No port allocated for service other".to_string()
        })
    );
}

#[test]
fn process_without_health_check_runs_at_its_second_pass() {
    let target = HujingzhiTarget {
        processes: vec![process("p", &["s"], None)],
        services: vec![service("s", "127.0.0.5:80")],
    };
    let mut state = supervisor(target);
    let mut world = world();
    steady(&mut state, &mut world);
    assert_eq!(statuses(&state, 0), vec![ProcessStatus::Running]);
    assert!(world.probes.is_empty());
}

#[test]
fn services_are_set_up_once() {
    let mut state = supervisor(one_process_target());
    let mut world = world();
    for tick in 0..4 {
        assert_eq!(world.pass(&mut state, tick * TICK), Request::Done);
    }
    let resets = world.requests.iter().filter(|r| matches!(r, Request::ResetService { .. })).count();
    assert_eq!(resets, 1);
    assert_eq!(state.processed_services, vec!["s".to_string()]);
}

#[test]
fn connection_counts_follow_the_snapshot() {
    let mut state = supervisor(one_process_target());
    let mut world = world();
    steady(&mut state, &mut world);
    world.ipvs[0].servers[0].active_conn = 17;
    assert_eq!(world.pass(&mut state, 2 * TICK), Request::Done);
    assert_eq!(state.processes_by_name[0].running_versions[0].1.approx_conn_count, 17);
}

#[test]
fn process_removed_from_the_target_keeps_running() {
    let mut state = supervisor(one_process_target());
    let mut world = world();
    steady(&mut state, &mut world);
    let only_service =
        HujingzhiTarget { processes: vec![], services: vec![service("s", "127.0.0.5:80")] };
    state
        .handle_rest_request(ClientRequest::SetTarget { target: "t".to_string() }, Some(only_service))
        .unwrap();
    assert_eq!(world.pass(&mut state, 2 * TICK), Request::Done);
    assert_eq!(statuses(&state, 0), vec![ProcessStatus::Running]);
}

#[test]
fn stored_target_that_is_invalid_is_replaced_by_the_empty_one() {
    let bad = HujingzhiTarget {
        processes: vec![process("p", &[], None), process("p", &[], None)],
        services: vec![],
    };
    let mut state = supervisor(bad);
    assert_eq!(state.target, HujingzhiTarget::default());
    assert_eq!(state.target_text, "text");
    match state.handle_rest_request(ClientRequest::Status, None).unwrap() {
        ClientResponse::Status { events, .. } => assert_eq!(
            events,
            vec![LogEvent::Warning {
                msg: "Ignoring stored target, as it is invalid: Duplicate name p in processes"
                    .to_string()
            }]
        ),
        _ => unreachable!(),
    }
}

fn held_ports(state: &GlobalState) -> Vec<u16> {
    let mut ports: Vec<u16> = state
        .processes_by_name
        .iter()
        .flat_map(|set| set.running_versions.iter())
        .flat_map(|(_, entry)| entry.port_allocations.iter().map(|(_, port)| *port))
        .collect();
    ports.sort();
    ports
}

fn allocated(state: &GlobalState) -> Vec<u16> {
    let mut ports: Vec<u16> = state.allocated_ports.iter().copied().collect();
    ports.sort();
    ports
}

#[test]
fn allocated_ports_are_those_that_children_hold() {
    let target = HujingzhiTarget {
        processes: vec![process("p", &["a", "b"], None), process("q", &["a"], None)],
        services: vec![service("a", "127.0.0.5:80"), service("b", "127.0.0.5:81")],
    };
    let mut state = supervisor(target);
    let mut world = world();
    world.busy_ports.push(20001);
    for tick in 0..5 {
        assert_eq!(world.pass(&mut state, tick * TICK), Request::Done);
        assert_eq!(allocated(&state), held_ports(&state));
        for port in state.free_loopback_ports.iter() {
            assert!(!state.allocated_ports.contains(port));
        }
    }
    assert_eq!(held_ports(&state), vec![20000, 20002, 20003]);
    // once a child with ports has exited and left its set, its ports stay
    // handed out though no child holds them
    world.exited.push((2, Some(1)));
    assert_eq!(world.pass(&mut state, 5 * TICK), Request::Done);
    assert_eq!(held_ports(&state).len() + 1, allocated(&state).len());
}

#[test]
fn each_weight_request_has_its_event() {
    let target = HujingzhiTarget {
        processes: vec![process("p", &["a", "b"], None), process("q", &["a"], None)],
        services: vec![service("a", "127.0.0.5:80"), service("b", "127.0.0.5:81")],
    };
    let mut state = supervisor(target);
    let mut world = world();
    for tick in 0..4 {
        world.events.clear();
        world.requests.clear();
        assert_eq!(world.pass(&mut state, tick * TICK), Request::Done);
        let asked: Vec<LogEvent> = world
            .requests
            .iter()
            .filter_map(|r| match r {
                Request::SetWeight { service, port, weight } => Some(LogEvent::WeightChange {
                    service: service.name.clone(),
                    port: *port,
                    weight: *weight,
                }),
                _ => None,
            })
            .collect();
        let recorded: Vec<LogEvent> = world
            .events
            .iter()
            .filter(|e| matches!(e, LogEvent::WeightChange { .. }))
            .cloned()
            .collect();
        assert_eq!(asked, recorded);
        if tick == 1 {
            assert_eq!(asked.len(), 3);
        }
    }
}

#[test]
fn two_processes_have_two_sets_in_target_order() {
    let target = HujingzhiTarget {
        processes: vec![process("p", &[], None), process("q", &[], None)],
        services: vec![],
    };
    let mut state = supervisor(target);
    let mut world = world();
    steady(&mut state, &mut world);
    let names: Vec<&str> = state.processes_by_name.iter().map(|s| s.name.as_str()).collect();
    assert_eq!(names, vec!["p", "q"]);
    assert_eq!(statuses(&state, 0), vec![ProcessStatus::Running]);
    assert_eq!(statuses(&state, 1), vec![ProcessStatus::Running]);
    match state.handle_rest_request(ClientRequest::Status, None).unwrap() {
        ClientResponse::Status { status, .. } => assert_eq!(
            status,
            "p:\n  brave-otter-0-1001: (Running)\nq:\n  brave-otter-1-1002: (Running)\n"
        ),
        _ => unreachable!(),
    }
}

fn adapter(message: &str) -> Request {
    Request::Failed { error: HousekeepingError::Adapter { message: message.to_string() } }
}

#[test]
fn failed_service_reset_gives_the_pass_up_and_is_tried_again() {
    let mut state = supervisor(one_process_target());
    let mut world = world();
    world.reset_error = Some("no such device".to_string());
    assert_eq!(world.pass(&mut state, 0), adapter("no such device"));
    assert!(state.processed_services.is_empty());
    assert_eq!(
        world.events,
        vec![
            LogEvent::CreateIpvsService { spec: service("s", "127.0.0.5:80") },
            LogEvent::Error { msg: "Housekeeping error: no such device".to_string() },
        ]
    );
    world.reset_error = None;
    assert_eq!(world.pass(&mut state, TICK), Request::Done);
    assert_eq!(state.processed_services, vec!["s".to_string()]);
}

#[test]
fn failed_poll_gives_the_pass_up_before_weights() {
    let mut state = supervisor(one_process_target());
    let mut world = world();
    steady(&mut state, &mut world);
    world.events.clear();
    world.poll_error = Some("no child processes".to_string());
    assert_eq!(world.pass(&mut state, 2 * TICK), adapter("no child processes"));
    assert_eq!(statuses(&state, 0), vec![ProcessStatus::Running]);
    assert_eq!(
        world.events,
        vec![LogEvent::Error { msg: "Housekeeping error: no child processes".to_string() }]
    );
}

#[test]
fn failed_weight_change_gives_the_pass_up_after_its_event() {
    let mut state = supervisor(one_process_target());
    let mut world = world();
    assert_eq!(world.pass(&mut state, 0), Request::Done);
    world.events.clear();
    world.weight_error = Some("busy".to_string());
    assert_eq!(world.pass(&mut state, TICK), adapter("busy"));
    assert_eq!(
        world.events,
        vec![
            LogEvent::StatusChange {
                name: "brave-otter-0-1001".to_string(),
                status: ProcessStatus::Running,
            },
            LogEvent::WeightChange { service: "s".to_string(), port: 20000, weight: 1 },
            LogEvent::Error { msg: "Housekeeping error: busy".to_string() },
        ]
    );
    // the weight is asked for again at the next pass
    world.weight_error = None;
    assert_eq!(world.pass(&mut state, 2 * TICK), Request::Done);
    assert_eq!(world.weight_of("127.0.0.5", 80, 20000), Some(1));
}

#[test]
fn probe_that_fails_in_transport_gives_the_pass_up() {
    let mut state = supervisor(one_process_target());
    let mut world = world();
    world.health = ProbeReply::Failed { message: "timed out".to_string() };
    assert_eq!(world.pass(&mut state, 0), Request::Done);
    assert_eq!(world.pass(&mut state, TICK), adapter("timed out"));
    assert_eq!(statuses(&state, 0), vec![ProcessStatus::Starting]);
}

#[test]
fn failed_bind_test_fails_the_launch_and_loses_the_port() {
    let target = HujingzhiTarget {
        processes: vec![process("p", &["a", "b"], None)],
        services: vec![service("a", "127.0.0.5:80"), service("b", "127.0.0.5:81")],
    };
    let mut state = supervisor_with(target, 20000, 20003, 9000);
    let mut world = world();
    // the first port is handed out, the test of the second fails
    let mut step = state.housekeeping(Event::Tick, 0);
    let mut tested = 0;
    loop {
        world.events.extend(step.events.iter().cloned());
        if step.request == Request::Done {
            break;
        }
        let event = match &step.request {
            Request::TestPort { .. } => {
                tested += 1;
                if tested == 2 {
                    Event::PortTested {
                        test: BindTest::Failed { message: "Failed to bind socket: denied".to_string() },
                    }
                } else {
                    Event::PortTested { test: BindTest::Free }
                }
            }
            other => world.answer(other),
        };
        step = state.housekeeping(event, 0);
    }
    assert!(state.processes_by_name[0].running_versions.is_empty());
    assert!(state.allocated_ports.is_empty());
    let free: Vec<u16> = state.free_loopback_ports.iter().copied().collect();
    assert_eq!(free, vec![20000, 20002]);
    let errors: Vec<&LogEvent> =
        world.events.iter().filter(|e| matches!(e, LogEvent::Error { .. })).collect();
    assert_eq!(
        errors,
        vec![
            &LogEvent::Error {
                msg: "Failed to allocate ports when launching process: Failed to bind socket: denied"
                    .to_string()
            },
            &LogEvent::Error {
                msg: "Failed to launch process p: Failed to bind socket: denied".to_string()
            },
        ]
    );
}

#[test]
fn service_received_twice_keeps_its_second_port() {
    let target = HujingzhiTarget {
        processes: vec![process("p", &["a", "a"], None)],
        services: vec![service("a", "127.0.0.5:80")],
    };
    let mut state = supervisor(target);
    let mut world = world();
    assert_eq!(world.pass(&mut state, 0), Request::Done);
    let entry = &state.processes_by_name[0].running_versions[0].1;
    assert_eq!(entry.port_allocations, vec![("a".to_string(), 20001)]);
    assert!(state.allocated_ports.contains(&20000));
    assert!(state.allocated_ports.contains(&20001));
}

#[test]
fn health_plan_of_an_entry() {
    let mut state = supervisor(one_process_target());
    let mut world = world();
    world.pass(&mut state, 0);
    let (spec, entry) = &state.processes_by_name[0].running_versions[0];
    assert_eq!(
        GlobalState::health_check(spec, entry),
        hujingzhi::health::HealthPlan::Probe { url: "http://127.0.0.1:20000/h".to_string() }
    );
}

//! The reconciliation pass as a function on the supervisor's state: what
//! each answer from outside leads to, and how far the pass goes on by
//! itself before it needs the next one.
use crate::config::ProcessSpecView;
use crate::events::{LOG_MAX_SIZE, LogEventView, logged, ProcessStatus, retained};
use crate::health::{bind, health_plan, HealthPlanView, verdict};
use crate::ipvs::weight_on;
use crate::launch::child_environment;
use crate::limiter::{gate_after, gate_open, HEALTH_INTERVAL, START_INTERVAL};
use crate::naming::next_count;
use crate::ports::{
    allocated_after, AllocationView, attempt, attempt_events, BindTestView, exhausted_message,
    free_after, log_after_attempt, pool_wf,
};
use crate::process::{
    counted, EntryView, new_entry, ProcessSetView, running_count, status_change, sunset, survivors,
};
use crate::search::first_where;
use crate::state::{CursorView, EventView, HousekeepingErrorView, RequestView, StateView, StepView};
use crate::validation::valid_target;
use vstd::prelude::*;

verus! {

/// The position of the set called `name`, or the number of sets when there
/// is none.
pub open spec fn set_position(sets: Seq<ProcessSetView>, name: Seq<char>) -> int {
    first_where(sets.len() as int, |j: int| set_named(sets, name, j))
}

/// Whether the set at `j` is called `name`.
pub open spec fn set_named(sets: Seq<ProcessSetView>, name: Seq<char>, j: int) -> bool {
    sets[j].name == name
}

/// What `set_position` returns: a position in range, with a set called
/// `name` there and none before it.
pub proof fn lemma_set_position(sets: Seq<ProcessSetView>, name: Seq<char>)
    ensures
        0 <= set_position(sets, name) <= sets.len(),
        set_position(sets, name) < sets.len() ==> sets[set_position(sets, name)].name == name,
        forall|j: int| 0 <= j < set_position(sets, name) ==> (#[trigger] sets[j]).name != name,
{
    let p = |j: int| set_named(sets, name, j);
    crate::search::lemma_first_where(sets.len() as int, p);
    assert forall|j: int| 0 <= j < set_position(sets, name) implies (#[trigger] sets[j]).name
        != name by {
        assert(!p(j));
    }
}

/// A set with no version.
pub open spec fn empty_set(name: Seq<char>) -> ProcessSetView {
    ProcessSetView { name, running_versions: Seq::empty() }
}

/// The sets once every process of the target has one: a process without a
/// set gets an empty set at the end, in target order.
pub open spec fn ensured(sets: Seq<ProcessSetView>, processes: Seq<ProcessSpecView>) -> Seq<
    ProcessSetView,
>
    decreases processes.len(),
{
    if processes.len() == 0 {
        sets
    } else {
        let before = ensured(sets, processes.drop_last());
        if set_position(before, processes.last().name) < before.len() {
            before
        } else {
            before.push(empty_set(processes.last().name))
        }
    }
}

/// The free queue after the ports of `pending` were released one by one:
/// each goes to the front.
pub open spec fn released_free(free: Seq<u16>, pending: Seq<(Seq<char>, u16)>) -> Seq<u16>
    decreases pending.len(),
{
    if pending.len() == 0 {
        free
    } else {
        seq![pending.last().1] + released_free(free, pending.drop_last())
    }
}

/// The handed-out set after the ports of `pending` were released.
pub open spec fn released_allocated(allocated: Set<u16>, pending: Seq<(Seq<char>, u16)>) -> Set<
    u16,
>
    decreases pending.len(),
{
    if pending.len() == 0 {
        allocated
    } else {
        released_allocated(allocated, pending.drop_last()).remove(pending.last().1)
    }
}

/// The ports that `pending` holds.
pub open spec fn pending_set(pending: Seq<(Seq<char>, u16)>) -> Set<u16> {
    Set::new(|p: u16| exists|i: int| 0 <= i < pending.len() && (#[trigger] pending[i]).1 == p)
}

/// Whether every port of the child is in `ports`.
pub open spec fn entry_ports_in(entry: EntryView, ports: Set<u16>) -> bool {
    forall|b: int|
        0 <= b < entry.port_allocations.len() ==> ports.contains(
            (#[trigger] entry.port_allocations[b]).1,
        )
}

/// Whether every port of every version is in `ports`.
pub open spec fn versions_ports_in(
    versions: Seq<(ProcessSpecView, EntryView)>,
    ports: Set<u16>,
) -> bool {
    forall|v: int| 0 <= v < versions.len() ==> entry_ports_in((#[trigger] versions[v]).1, ports)
}

/// Whether every port of every running child is in `ports`.
pub open spec fn sets_ports_in(sets: Seq<ProcessSetView>, ports: Set<u16>) -> bool {
    forall|s: int|
        0 <= s < sets.len() ==> versions_ports_in((#[trigger] sets[s]).running_versions, ports)
}

/// The key under which start-up probes of a child are rate-limited.
pub open spec fn start_key(name: Seq<char>) -> Seq<char> {
    "start:"@ + name
}

/// The key under which health probes of a child are rate-limited.
pub open spec fn health_key(name: Seq<char>) -> Seq<char> {
    "health:"@ + name
}

/// The event recorded when a pass is given up.
pub open spec fn housekeeping_error(error: HousekeepingErrorView) -> LogEventView {
    LogEventView::Error { msg: "Housekeeping error: "@ + error.message() }
}

/// The event recorded when ports could not be allocated for a launch.
pub open spec fn allocation_error(message: Seq<char>) -> LogEventView {
    LogEventView::Error { msg: "Failed to allocate ports when launching process: "@ + message }
}

/// The event recorded when a launch failed.
pub open spec fn launch_error(name: Seq<char>, message: Seq<char>) -> LogEventView {
    LogEventView::Error { msg: "Failed to launch process "@ + name + ": "@ + message }
}

/// The message of a launch whose spec has no command.
pub open spec fn empty_command_message() -> Seq<char> {
    "Empty command"@
}

/// The exit status recorded for a child: `-1` when the code is not known.
pub open spec fn exit_status(code: Option<i32>) -> i32 {
    match code {
        Some(c) => c,
        None => -1i32,
    }
}

impl StateView {
    /// The versions of the set at `set`.
    pub open spec fn versions(self, set: int) -> Seq<(ProcessSpecView, EntryView)> {
        self.processes_by_name[set as int].running_versions
    }

    /// The state with the pass at `cursor`.
    pub open spec fn at(self, cursor: CursorView) -> StateView {
        StateView { cursor, ..self }
    }

    /// The state after `event` was recorded.
    pub open spec fn emit(self, event: LogEventView) -> StateView {
        StateView {
            log: retained(self.log.push(event)),
            emitted: self.emitted.push(event),
            ..self
        }
    }

    /// The state with the versions of the set at `set` replaced.
    pub open spec fn with_versions(
        self,
        set: int,
        versions: Seq<(ProcessSpecView, EntryView)>,
    ) -> StateView {
        StateView {
            processes_by_name: self.processes_by_name.update(
                set as int,
                ProcessSetView { running_versions: versions, ..self.processes_by_name[set as int] },
            ),
            ..self
        }
    }

    /// The state after the child at `entry` of the set at `set` moved to
    /// `status`, which records one event.
    pub open spec fn set_status(self, set: int, entry: int, status: ProcessStatus) -> StateView {
        let version = self.versions(set)[entry];
        self.emit(status_change(version.1.name, status)).with_versions(
            set,
            self.versions(set).update(entry, (version.0, EntryView { status, ..version.1 })),
        )
    }

    /// The pass given up with `error`: one event, and no pass under way.
    pub open spec fn fail(self, error: HousekeepingErrorView) -> (StateView, Option<RequestView>) {
        (
            self.emit(housekeeping_error(error)).at(CursorView::Idle),
            Some(RequestView::Failed { error }),
        )
    }

    /// The state after a launch for the set at `set` failed with `message`:
    /// the ports allocated for it are released, the failure is recorded, and
    /// the pass goes on with the set as it was. `allocating` says whether
    /// the failure came from port allocation, which records one event more.
    pub open spec fn launch_failed(
        self,
        set: int,
        name: Seq<char>,
        message: Seq<char>,
        allocating: bool,
    ) -> StateView {
        let told = if allocating {
            self.emit(allocation_error(message))
        } else {
            self
        };
        let freed = StateView {
            free: released_free(told.free, told.pending_ports),
            allocated: released_allocated(told.allocated, told.pending_ports),
            pending_ports: Seq::empty(),
            launching: None,
            ..told
        };
        freed.emit(launch_error(name, message)).at(CursorView::Counts { set })
    }
}

/// From `Services`: skip services already set up; ask for the first that is not.
pub open spec fn advance_services(s: StateView, index: int) -> (StateView, Option<RequestView>) {
    if index >= s.target.services.len() {
        (s.at(CursorView::Ensure { set: 0 }), None)
    } else {
        let service = s.target.services[index as int];
        if s.processed_services.contains(service.name) {
            (s.at(CursorView::Services { index: index + 1 }), None)
        } else {
            (
                s.emit(LogEventView::CreateIpvsService { spec: service }).at(
                    CursorView::AwaitService { index },
                ),
                Some(RequestView::ResetService { spec: service }),
            )
        }
    }
}

/// From `Ensure`: a set whose name the target holds, and whose newest
/// version was not launched from the target's spec, gets a new version.
pub open spec fn advance_ensure(s: StateView, set: int) -> (StateView, Option<RequestView>) {
    if set >= s.processes_by_name.len() {
        (s.at(CursorView::Weights { set: 0, entry: 0, binding: 0 }), None)
    } else {
        let p = s.target.process_position(s.processes_by_name[set as int].name);
        let versions = s.versions(set);
        if p >= s.target.processes.len() {
            (s.at(CursorView::Counts { set }), None)
        } else if versions.len() > 0 && versions.last().0 == s.target.processes[p] {
            (s.at(CursorView::Counts { set }), None)
        } else {
            (
                StateView {
                    launching: Some(s.target.processes[p]),
                    pending_ports: Seq::empty(),
                    ..s
                }.at(CursorView::Ports { set, receive: 0 }),
                None,
            )
        }
    }
}

/// From `Ports`: ask for a bind test of the front port while services are
/// left to bind; fail the launch when the pool is empty or the spec has no
/// command; else ask for the spawn.
pub open spec fn advance_ports(s: StateView, set: int, receive: int) -> (
    StateView,
    Option<RequestView>,
) {
    match s.launching {
        None => (s.at(CursorView::Counts { set }), None),
        Some(spec) => {
            if receive < spec.receives.len() {
                if s.free.len() == 0 {
                    (s.launch_failed(set, spec.name, exhausted_message(), true), None)
                } else {
                    (
                        s.at(CursorView::AwaitPort { set, receive }),
                        Some(RequestView::TestPort { port: s.free[0] }),
                    )
                }
            } else if spec.command.len() == 0 {
                (s.launch_failed(set, spec.name, empty_command_message(), false), None)
            } else {
                (
                    s.at(CursorView::AwaitSpawn { set }),
                    Some(
                        RequestView::Spawn {
                            process_spec: spec,
                            env: child_environment(spec, s.pending_ports),
                        },
                    ),
                )
            }
        },
    }
}

/// From `Counts`: every version's connection count is brought up to date.
pub open spec fn advance_counts(s: StateView, set: int) -> (StateView, Option<RequestView>) {
    (
        s.with_versions(set, counted(s.versions(set), s.last_ipvs_state)).at(
            CursorView::Promote { set },
        ),
        None,
    )
}

/// From `Promote`: the newest version, while it starts and its gate is
/// open, is probed; without a health check it serves at once.
pub open spec fn advance_promote(s: StateView, set: int, now: u64) -> (
    StateView,
    Option<RequestView>,
) {
    let versions = s.versions(set);
    let next = CursorView::Demote { set, entry: 0 };
    if versions.len() == 0 || versions.last().1.status != ProcessStatus::Starting {
        (s.at(next), None)
    } else {
        let tail = versions.last();
        let key = start_key(tail.1.name);
        let asked = StateView { limiter: gate_after(s.limiter, key, now, START_INTERVAL), ..s };
        if !gate_open(s.limiter, key, now, START_INTERVAL) {
            (asked.at(next), None)
        } else {
            match health_plan(tail.0, tail.1.port_allocations) {
                HealthPlanView::Healthy => (
                    asked.set_status(set, versions.len() - 1, ProcessStatus::Running).at(next),
                    None,
                ),
                HealthPlanView::MissingPort { service } => asked.fail(
                    HousekeepingErrorView::NoPortForService { service },
                ),
                HealthPlanView::Probe { url } => (
                    asked.at(CursorView::AwaitStart { set }),
                    Some(RequestView::Probe { url }),
                ),
            }
        }
    }
}

/// From `Demote`: the version at `entry`, while it serves and its gate is
/// open, is probed.
pub open spec fn advance_demote(s: StateView, set: int, entry: int, now: u64) -> (
    StateView,
    Option<RequestView>,
) {
    let versions = s.versions(set);
    let next = CursorView::Demote { set, entry: entry + 1 };
    if entry >= versions.len() {
        (s.at(CursorView::Sunset { set }), None)
    } else if versions[entry as int].1.status != ProcessStatus::Running {
        (s.at(next), None)
    } else {
        let version = versions[entry as int];
        let key = health_key(version.1.name);
        let asked = StateView { limiter: gate_after(s.limiter, key, now, HEALTH_INTERVAL), ..s };
        if !gate_open(s.limiter, key, now, HEALTH_INTERVAL) {
            (asked.at(next), None)
        } else {
            match health_plan(version.0, version.1.port_allocations) {
                HealthPlanView::Healthy => (asked.at(next), None),
                HealthPlanView::MissingPort { service } => asked.fail(
                    HousekeepingErrorView::NoPortForService { service },
                ),
                HealthPlanView::Probe { url } => (
                    asked.at(CursorView::AwaitHealth { set, entry }),
                    Some(RequestView::Probe { url }),
                ),
            }
        }
    }
}

/// From `Sunset`: every serving version older than the newest serving one
/// is sunset and its process listed for a termination signal.
pub open spec fn advance_sunset(s: StateView, set: int) -> (StateView, Option<RequestView>) {
    let outcome = sunset(s.versions(set));
    (
        StateView {
            log: logged(s.log, outcome.events),
            emitted: s.emitted + outcome.events,
            signals: s.signals + outcome.signals,
            ..s.with_versions(set, outcome.versions)
        }.at(CursorView::Reap { set, entry: 0 }),
        None,
    )
}

/// From `Reap`: each child is polled in turn.
pub open spec fn advance_reap(s: StateView, set: int, entry: int) -> (
    StateView,
    Option<RequestView>,
) {
    if entry >= s.versions(set).len() {
        (s.at(CursorView::Collect { set }), None)
    } else {
        (
            s.at(CursorView::AwaitExit { set, entry }),
            Some(RequestView::PollExit { process: s.versions(set)[entry as int].1.process }),
        )
    }
}

/// From `Collect`: versions whose child has exited leave the set, and the
/// pass moves to the next set.
pub open spec fn advance_collect(s: StateView, set: int) -> (StateView, Option<RequestView>) {
    (
        s.with_versions(set, survivors(s.versions(set))).at(
            CursorView::Ensure { set: set + 1 },
        ),
        None,
    )
}

/// From `Weights`: the first port whose weight in the snapshot differs from
/// what its child's status calls for gets one event and one request; when
/// none is left the pass is complete.
pub open spec fn advance_weights(s: StateView, set: int, entry: int, binding: int) -> (
    StateView,
    Option<RequestView>,
) {
    if set >= s.processes_by_name.len() {
        (s.at(CursorView::Idle), Some(RequestView::Done))
    } else if entry >= s.versions(set).len() {
        (s.at(CursorView::Weights { set: set + 1, entry: 0, binding: 0 }), None)
    } else {
        let version = s.versions(set)[entry as int];
        if binding >= version.1.port_allocations.len() {
            (s.at(CursorView::Weights { set, entry: entry + 1, binding: 0 }), None)
        } else {
            let bound = version.1.port_allocations[binding as int];
            let k = s.target.service_position(bound.0);
            let wanted = version.1.status.target_weight();
            if k >= s.target.services.len() {
                s.fail(HousekeepingErrorView::ServiceNotFound { service: bound.0 })
            } else if weight_on(s.last_ipvs_state, bound.1) == wanted {
                (
                    s.at(CursorView::Weights { set, entry, binding: binding + 1 }),
                    None,
                )
            } else {
                (
                    s.emit(
                        LogEventView::WeightChange {
                            service: s.target.services[k].name,
                            port: bound.1,
                            weight: wanted as i32,
                        },
                    ).at(CursorView::AwaitWeight { set, entry, binding }),
                    Some(
                        RequestView::SetWeight {
                            service: s.target.services[k],
                            port: bound.1,
                            weight: wanted as i32,
                        },
                    ),
                )
            }
        }
    }
}

/// One move of the pass from a position that needs no answer from outside:
/// the state it leads to, and the request it makes, if it makes one.
pub open spec fn advance(s: StateView, now: u64) -> (StateView, Option<RequestView>) {
    match s.cursor {
        CursorView::Services { index } => advance_services(s, index),
        CursorView::Ensure { set } => advance_ensure(s, set),
        CursorView::Ports { set, receive } => advance_ports(s, set, receive),
        CursorView::Counts { set } => advance_counts(s, set),
        CursorView::Promote { set } => advance_promote(s, set, now),
        CursorView::Demote { set, entry } => advance_demote(s, set, entry, now),
        CursorView::Sunset { set } => advance_sunset(s, set),
        CursorView::Reap { set, entry } => advance_reap(s, set, entry),
        CursorView::Collect { set } => advance_collect(s, set),
        CursorView::Weights { set, entry, binding } => advance_weights(s, set, entry, binding),
        _ => (s, None),
    }
}

/// The answer to a bind test, while a launch allocates its ports.
pub open spec fn resume_port(s: StateView, set: int, receive: int, test: BindTestView) -> (
    StateView,
    Option<RequestView>,
) {
    match s.launching {
        None => (s.at(CursorView::Counts { set }), None),
        Some(spec) => {
            let tried = StateView {
                free: free_after(s.free, test),
                allocated: allocated_after(s.free, s.allocated, test),
                log: log_after_attempt(s.free, s.log, test),
                emitted: s.emitted + attempt_events(s.free, test),
                ..s
            };
            match attempt(s.free, test) {
                AllocationView::Allocated { port } => (
                    StateView {
                        pending_ports: bind(s.pending_ports, spec.receives[receive as int], port),
                        ..tried
                    }.at(CursorView::Ports { set, receive: receive + 1 }),
                    None,
                ),
                AllocationView::Retry => (tried.at(CursorView::Ports { set, receive }), None),
                AllocationView::Exhausted => (
                    tried.launch_failed(set, spec.name, exhausted_message(), true),
                    None,
                ),
                AllocationView::Failed { message } => (
                    tried.launch_failed(set, spec.name, message, true),
                    None,
                ),
            }
        },
    }
}

/// The child was spawned: it joins its set as the newest version, named
/// from `word`, the counter and its process id.
pub open spec fn resume_spawned(
    s: StateView,
    set: int,
    process: u64,
    pid: Option<u32>,
    now: u64,
    word: Seq<char>,
) -> (StateView, Option<RequestView>) {
    match s.launching {
        None => (s.at(CursorView::Counts { set }), None),
        Some(spec) => {
            let entry = new_entry(process, pid, s.pending_ports, word, s.counter, now);
            (
                StateView {
                    counter: next_count(s.counter),
                    launching: None,
                    pending_ports: Seq::empty(),
                    ..s
                }.emit(
                    LogEventView::LaunchProcess {
                        name: entry.name,
                        process_name: spec.name,
                        port_allocations: s.pending_ports,
                    },
                ).with_versions(set, s.versions(set).push((spec, entry))).at(
                    CursorView::Counts { set },
                ),
                None,
            )
        },
    }
}

/// What an answer from outside leads to, at the position that waited for
/// it. An answer that does not fit the position gives the pass up.
pub open spec fn resume(s: StateView, event: EventView, now: u64, word: Seq<char>) -> (
    StateView,
    Option<RequestView>,
) {
    match (s.cursor, event) {
        (CursorView::Idle, EventView::Tick) => (
            StateView {
                processes_by_name: ensured(s.processes_by_name, s.target.processes),
                ..s
            }.at(CursorView::AwaitSnapshot),
            Some(RequestView::Snapshot),
        ),
        (CursorView::AwaitSnapshot, EventView::Snapshot { state }) => (
            StateView { last_ipvs_state: Some(state), ..s }.at(CursorView::Services { index: 0 }),
            None,
        ),
        (CursorView::AwaitSnapshot, EventView::Failed { message }) => s.fail(
            HousekeepingErrorView::Adapter { message },
        ),
        (CursorView::AwaitService { index }, EventView::ServiceReset) => (
            StateView {
                processed_services: s.processed_services.push(s.target.services[index as int].name),
                ..s
            }.at(CursorView::Services { index: index + 1 }),
            None,
        ),
        (CursorView::AwaitService { index }, EventView::Failed { message }) => s.fail(
            HousekeepingErrorView::Adapter { message },
        ),
        (CursorView::AwaitPort { set, receive }, EventView::PortTested { test }) => resume_port(
            s,
            set,
            receive,
            test,
        ),
        (CursorView::AwaitSpawn { set }, EventView::Spawned { process, pid }) => resume_spawned(
            s,
            set,
            process,
            pid,
            now,
            word,
        ),
        (CursorView::AwaitSpawn { set }, EventView::Failed { message }) => match s.launching {
            None => (s.at(CursorView::Counts { set }), None),
            Some(spec) => (s.launch_failed(set, spec.name, message, false), None),
        },
        (CursorView::AwaitStart { set }, EventView::Probed { reply }) => match verdict(reply) {
            Ok(healthy) => (
                (if healthy {
                    s.set_status(set, s.versions(set).len() - 1, ProcessStatus::Running)
                } else {
                    s
                }).at(CursorView::Demote { set, entry: 0 }),
                None,
            ),
            Err(message) => s.fail(HousekeepingErrorView::Adapter { message }),
        },
        (CursorView::AwaitHealth { set, entry }, EventView::Probed { reply }) => match verdict(reply) {
            Ok(healthy) => (
                (if healthy {
                    s
                } else {
                    s.set_status(set, entry as int, ProcessStatus::Unhealthy)
                }).at(CursorView::Demote { set, entry: entry + 1 }),
                None,
            ),
            Err(message) => s.fail(HousekeepingErrorView::Adapter { message }),
        },
        (CursorView::AwaitExit { set, entry }, EventView::StillRunning) => (
            s.at(CursorView::Reap { set, entry: entry + 1 }),
            None,
        ),
        (CursorView::AwaitExit { set, entry }, EventView::Exited { code, approx_time }) => (
            s.set_status(
                set,
                entry as int,
                ProcessStatus::Exited { exit_status: exit_status(code), approx_time },
            ).at(CursorView::Reap { set, entry: entry + 1 }),
            None,
        ),
        (CursorView::AwaitExit { set, entry }, EventView::Failed { message }) => s.fail(
            HousekeepingErrorView::Adapter { message },
        ),
        (CursorView::AwaitWeight { set, entry, binding }, EventView::WeightSet) => (
            s.at(CursorView::Weights { set, entry, binding: binding + 1 }),
            None,
        ),
        (CursorView::AwaitWeight { set, entry, binding }, EventView::Failed { message }) => s.fail(
            HousekeepingErrorView::Adapter { message },
        ),
        _ => s.fail(HousekeepingErrorView::UnexpectedEvent),
    }
}

/// Whether each of the first `n` sets holds at most one serving version.
pub open spec fn settled_upto(sets: Seq<ProcessSetView>, n: int) -> bool {
    forall|k: int|
        0 <= k < n && k < sets.len() ==> running_count((#[trigger] sets[k]).running_versions) <= 1
}

/// How many sets the pass has brought down to at most one serving version.
pub open spec fn settled_sets(s: StateView) -> int {
    match s.cursor {
        CursorView::Ensure { set } => set as int,
        CursorView::Ports { set, .. } => set as int,
        CursorView::AwaitPort { set, .. } => set as int,
        CursorView::AwaitSpawn { set } => set as int,
        CursorView::Counts { set } => set as int,
        CursorView::Promote { set } => set as int,
        CursorView::AwaitStart { set } => set as int,
        CursorView::Demote { set, .. } => set as int,
        CursorView::AwaitHealth { set, .. } => set as int,
        CursorView::Sunset { set } => set as int,
        CursorView::Reap { set, .. } => set + 1,
        CursorView::AwaitExit { set, .. } => set + 1,
        CursorView::Collect { set } => set + 1,
        CursorView::Weights { .. } => s.processes_by_name.len() as int,
        CursorView::AwaitWeight { .. } => s.processes_by_name.len() as int,
        _ => 0,
    }
}

impl StateView {
    /// Whether the pass's position lies within the state it walks over.
    pub open spec fn cursor_wf(self) -> bool {
        let sets = self.processes_by_name.len();
        match self.cursor {
            CursorView::Idle => true,
            CursorView::AwaitSnapshot => true,
            CursorView::Services { index } => 0 <= index <= self.target.services.len(),
            CursorView::AwaitService { index } => 0 <= index < self.target.services.len(),
            CursorView::Ensure { set } => 0 <= set <= sets,
            CursorView::Ports { set, receive } => 0 <= set < sets && self.launching is Some && 0
                <= receive <= self.launching->0.receives.len(),
            CursorView::AwaitPort { set, receive } => 0 <= set < sets && self.launching is Some
                && 0 <= receive < self.launching->0.receives.len() && self.free.len() > 0,
            CursorView::AwaitSpawn { set } => 0 <= set < sets && self.launching is Some,
            CursorView::Counts { set } => 0 <= set < sets,
            CursorView::Promote { set } => 0 <= set < sets,
            CursorView::AwaitStart { set } => 0 <= set < sets && self.versions(set).len() > 0,
            CursorView::Demote { set, entry } => 0 <= set < sets && 0 <= entry <= self.versions(
                set,
            ).len(),
            CursorView::AwaitHealth { set, entry } => 0 <= set < sets && 0 <= entry
                < self.versions(set).len(),
            CursorView::Sunset { set } => 0 <= set < sets,
            CursorView::Reap { set, entry } => 0 <= set < sets && 0 <= entry <= self.versions(
                set,
            ).len(),
            CursorView::AwaitExit { set, entry } => 0 <= set < sets && 0 <= entry < self.versions(
                set,
            ).len(),
            CursorView::Collect { set } => 0 <= set < sets,
            CursorView::Weights { set, entry, binding } => 0 <= set <= sets && 0 <= entry && 0
                <= binding && (set < sets ==> entry <= self.versions(set).len() && (entry
                < self.versions(set).len() ==> binding
                <= self.versions(set)[entry].1.port_allocations.len())),
            CursorView::AwaitWeight { set, entry, binding } => 0 <= set < sets && 0 <= entry
                < self.versions(set).len() && 0 <= binding
                < self.versions(set)[entry].1.port_allocations.len(),
        }
    }

    /// The port pool's invariant, and how it ties to the running children:
    /// no queued port is handed out or queued twice; every port held by a
    /// running child is handed out; the ports a launch has allocated so far
    /// are handed out, differ from one another, and belong to no child yet.
    pub open spec fn ports_wf(self) -> bool {
        &&& pool_wf(self.free, self.allocated)
        &&& sets_ports_in(
            self.processes_by_name,
            self.allocated.difference(pending_set(self.pending_ports)),
        )
        &&& forall|i: int|
            0 <= i < self.pending_ports.len() ==> self.allocated.contains(
                (#[trigger] self.pending_ports[i]).1,
            )
        &&& forall|i: int, j: int|
            0 <= i < j < self.pending_ports.len() ==> (#[trigger] self.pending_ports[i]).1 != (
            #[trigger] self.pending_ports[j]).1
    }

    /// Whether each set the pass has finished with holds at most one
    /// serving version.
    pub open spec fn settled(self) -> bool {
        settled_upto(self.processes_by_name, settled_sets(self))
    }

    /// The supervisor's invariant.
    pub open spec fn wf(self) -> bool {
        &&& self.cursor_wf()
        &&& self.ports_wf()
        &&& self.settled()
        &&& valid_target(self.target)
        &&& self.adjectives.len() > 0
        &&& self.nouns.len() > 0
        &&& self.log.len() <= LOG_MAX_SIZE
    }
}

/// The first component of the pass's progress measure: its phase.
pub open spec fn rank_phase(s: StateView) -> int {
    match s.cursor {
        CursorView::Services { .. } => 3,
        CursorView::Ensure { .. } => 2,
        CursorView::Ports { .. } => 2,
        CursorView::Counts { .. } => 2,
        CursorView::Promote { .. } => 2,
        CursorView::Demote { .. } => 2,
        CursorView::Sunset { .. } => 2,
        CursorView::Reap { .. } => 2,
        CursorView::Collect { .. } => 2,
        CursorView::Weights { .. } => 1,
        _ => 0,
    }
}

/// The second component: the services or sets still ahead.
pub open spec fn rank_outer(s: StateView) -> int {
    match s.cursor {
        CursorView::Services { index } => s.target.services.len() - index,
        CursorView::Ensure { set } => s.processes_by_name.len() - set,
        CursorView::Ports { set, .. } => s.processes_by_name.len() - set,
        CursorView::Counts { set } => s.processes_by_name.len() - set,
        CursorView::Promote { set } => s.processes_by_name.len() - set,
        CursorView::Demote { set, .. } => s.processes_by_name.len() - set,
        CursorView::Sunset { set } => s.processes_by_name.len() - set,
        CursorView::Reap { set, .. } => s.processes_by_name.len() - set,
        CursorView::Collect { set } => s.processes_by_name.len() - set,
        CursorView::Weights { set, .. } => s.processes_by_name.len() - set,
        _ => 0,
    }
}

/// The third component: the stages of the current set still ahead, or, in
/// the weight phase, the versions still ahead.
pub open spec fn rank_stage(s: StateView) -> int {
    match s.cursor {
        CursorView::Ensure { .. } => 9,
        CursorView::Ports { .. } => 8,
        CursorView::Counts { .. } => 6,
        CursorView::Promote { .. } => 5,
        CursorView::Demote { .. } => 4,
        CursorView::Sunset { .. } => 3,
        CursorView::Reap { .. } => 2,
        CursorView::Collect { .. } => 1,
        CursorView::Weights { set, entry, .. } => if set < s.processes_by_name.len() {
            s.versions(set).len() - entry
        } else {
            0
        },
        _ => 0,
    }
}

/// The fourth component: the versions or ports still ahead.
pub open spec fn rank_inner(s: StateView) -> int {
    match s.cursor {
        CursorView::Demote { set, entry } => s.versions(set).len() - entry,
        CursorView::Weights { set, entry, binding } => if set < s.processes_by_name.len() && entry
            < s.versions(set).len() {
            s.versions(set)[entry as int].1.port_allocations.len() - binding
        } else {
            0
        },
        _ => 0,
    }
}

/// The pass carried on from a position that needs no answer, up to its next
/// request.
pub open spec fn run(s: StateView, now: u64) -> (StateView, RequestView)
    decreases rank_phase(s), rank_outer(s), rank_stage(s), rank_inner(s),
    when s.cursor_wf()
    via run_decreases
{
    if !s.cursor.internal() {
        (s, RequestView::Done)
    } else {
        let next = advance(s, now);
        match next.1 {
            Some(request) => (next.0, request),
            None => run(next.0, now),
        }
    }
}

/// Why `run` ends: every move that makes no request brings the pass forward.
#[via_fn]
proof fn run_decreases(s: StateView, now: u64) {
    if s.cursor.internal() && advance(s, now).1 is None {
        lemma_advance_rank(s, now);
    }
}

/// A move that makes no request brings the pass strictly forward.
pub proof fn lemma_advance_rank(s: StateView, now: u64)
    requires
        s.cursor_wf(),
        s.cursor.internal(),
        advance(s, now).1 is None,
    ensures
        rank_phase(s) >= 0,
        rank_outer(s) >= 0,
        rank_stage(s) >= 0,
        rank_inner(s) >= 0,
        ({
            let t = advance(s, now).0;
            ||| rank_phase(t) < rank_phase(s)
            ||| (rank_phase(t) == rank_phase(s) && rank_outer(t) < rank_outer(s))
            ||| (rank_phase(t) == rank_phase(s) && rank_outer(t) == rank_outer(s) && rank_stage(t)
                < rank_stage(s))
            ||| (rank_phase(t) == rank_phase(s) && rank_outer(t) == rank_outer(s) && rank_stage(t)
                == rank_stage(s) && rank_inner(t) < rank_inner(s))
        }),
        rank_phase(advance(s, now).0) >= 0,
        rank_outer(advance(s, now).0) >= 0,
        rank_stage(advance(s, now).0) >= 0,
        rank_inner(advance(s, now).0) >= 0,
{
    let t = advance(s, now).0;
    let sets = s.processes_by_name.len();
    match s.cursor {
        CursorView::Services { index } => {
            assert(t == advance_services(s, index).0);
        },
        CursorView::Ensure { set } => {
            assert(t == advance_ensure(s, set).0);
        },
        CursorView::Ports { set, receive } => {
            assert(t == advance_ports(s, set, receive).0);
            assert(t.processes_by_name.len() == sets);
            assert(t.cursor == CursorView::Counts { set });
        },
        CursorView::Counts { set } => {
            assert(t == advance_counts(s, set).0);
            assert(t.processes_by_name.len() == sets);
            assert(t.cursor == CursorView::Promote { set });
        },
        CursorView::Promote { set } => {
            assert(t == advance_promote(s, set, now).0);
            assert(t.processes_by_name.len() == sets);
            assert(t.cursor == CursorView::Demote { set, entry: 0 });
        },
        CursorView::Demote { set, entry } => {
            assert(t == advance_demote(s, set, entry, now).0);
            assert(t.processes_by_name == s.processes_by_name);
        },
        CursorView::Sunset { set } => {
            assert(t == advance_sunset(s, set).0);
            assert(t.processes_by_name.len() == sets);
            assert(t.cursor == CursorView::Reap { set, entry: 0 });
        },
        CursorView::Reap { set, entry } => {
            assert(t == advance_reap(s, set, entry).0);
        },
        CursorView::Collect { set } => {
            assert(t == advance_collect(s, set).0);
            assert(t.processes_by_name.len() == sets);
            assert(t.cursor == CursorView::Ensure { set: set + 1 });
        },
        CursorView::Weights { set, entry, binding } => {
            assert(t == advance_weights(s, set, entry, binding).0);
            assert(t.processes_by_name == s.processes_by_name);
        },
        _ => {},
    }
}

/// One step of a pass: the answer `event` is taken in, and the pass goes on
/// up to its next request. `word` names the child, if the step adds one.
/// The events and signals of the step leave the state with the step.
pub open spec fn tick(s: StateView, event: EventView, now: u64, word: Seq<char>) -> (
    StateView,
    StepView,
) {
    let fresh = StateView { emitted: Seq::empty(), signals: Seq::empty(), ..s };
    let resumed = resume(fresh, event, now, word);
    let ended = match resumed.1 {
        Some(request) => (resumed.0, request),
        None => run(resumed.0, now),
    };
    (
        StateView { emitted: Seq::empty(), signals: Seq::empty(), ..ended.0 },
        StepView { events: ended.0.emitted, signals: ended.0.signals, request: ended.1 },
    )
}

} // verus!

//! The supervisor's invariant holds after every move of a pass, and after
//! every answer taken in.
use crate::events::{lemma_logged_bounded, LOG_MAX_SIZE, ProcessStatus};
use crate::health::{bind, HealthPlanView};
use crate::invariants::{
    lemma_attempt_pool, lemma_bind_pending, lemma_counted_ports, lemma_ensured_ports,
    lemma_ports_in_grow, lemma_push_ports, lemma_released, lemma_status_not_running,
    lemma_status_ports, lemma_sunset_ports, lemma_survivors_ports, lemma_update_ports_in,
    lemma_update_settled, lemma_update_unsettled,
};
use crate::model::{
    advance, advance_collect, advance_counts, advance_demote, advance_ensure, advance_ports,
    advance_promote, advance_reap, advance_services, advance_sunset, advance_weights, pending_set,
    resume, resume_port, resume_spawned, settled_upto, versions_ports_in,
};
use crate::ports::{allocated_after, AllocationView, attempt, BindTestView, free_after};
use crate::process::{
    EntryView, lemma_sunset_leaves_one, lemma_survivors_keep_running, running_count, sunset,
    survivors,
};
use crate::state::{CursorView, EventView, HousekeepingErrorView, StateView};
use crate::validation::valid_target;
use vstd::prelude::*;

verus! {

impl StateView {
    /// The parts of the invariant that do not speak of the pass's position.
    pub open spec fn rest_wf(self) -> bool {
        &&& self.ports_wf()
        &&& valid_target(self.target)
        &&& self.adjectives.len() > 0
        &&& self.nouns.len() > 0
        &&& self.log.len() <= LOG_MAX_SIZE
    }
}

/// Recording an event keeps what the invariant says of ports, target and log.
pub proof fn lemma_emit_rest(s: StateView, event: crate::events::LogEventView)
    requires
        s.rest_wf(),
    ensures
        s.emit(event).rest_wf(),
{
}

/// Giving a pass up leaves the invariant in place.
pub proof fn lemma_fail_wf(s: StateView, error: HousekeepingErrorView)
    requires
        s.rest_wf(),
    ensures
        s.fail(error).0.wf(),
{
}

/// Replacing the versions of the current set, by versions whose children
/// hold no new port, keeps what the invariant says of ports.
pub proof fn lemma_with_versions_rest(
    s: StateView,
    set: int,
    versions: Seq<(crate::config::ProcessSpecView, EntryView)>,
)
    requires
        s.rest_wf(),
        0 <= set < s.processes_by_name.len(),
        versions_ports_in(versions, s.allocated.difference(pending_set(s.pending_ports))),
    ensures
        s.with_versions(set, versions).rest_wf(),
        s.with_versions(set, versions).processes_by_name.len() == s.processes_by_name.len(),
        s.with_versions(set, versions).versions(set) == versions,
{
    lemma_update_ports_in(
        s.processes_by_name,
        set,
        crate::process::ProcessSetView {
            running_versions: versions,
            ..s.processes_by_name[set]
        },
        s.allocated.difference(pending_set(s.pending_ports)),
    );
}

/// A change of one child's status keeps what the invariant says of ports.
pub proof fn lemma_set_status_rest(s: StateView, set: int, entry: int, status: ProcessStatus)
    requires
        s.rest_wf(),
        0 <= set < s.processes_by_name.len(),
        0 <= entry < s.versions(set).len(),
    ensures
        s.set_status(set, entry, status).rest_wf(),
        s.set_status(set, entry, status).processes_by_name.len() == s.processes_by_name.len(),
        s.set_status(set, entry, status).versions(set).len() == s.versions(set).len(),
        s.set_status(set, entry, status).cursor == s.cursor,
        s.set_status(set, entry, status).processes_by_name == s.processes_by_name.update(
            set,
            s.set_status(set, entry, status).processes_by_name[set],
        ),
        s.set_status(set, entry, status).versions(set) == s.versions(set).update(
            entry,
            (s.versions(set)[entry].0, EntryView { status, ..s.versions(set)[entry].1 }),
        ),
{
    let ports = s.allocated.difference(pending_set(s.pending_ports));
    assert(versions_ports_in(s.processes_by_name[set].running_versions, ports));
    lemma_status_ports(s.versions(set), entry, status, ports);
    let told = s.emit(crate::process::status_change(s.versions(set)[entry].1.name, status));
    lemma_with_versions_rest(
        told,
        set,
        s.versions(set).update(
            entry,
            (s.versions(set)[entry].0, EntryView { status, ..s.versions(set)[entry].1 }),
        ),
    );
}

/// A failed launch leaves the invariant in place: its ports are back in
/// the pool, and the pass goes on with the set's other stages.
pub proof fn lemma_launch_failed_wf(
    s: StateView,
    set: int,
    name: Seq<char>,
    message: Seq<char>,
    allocating: bool,
)
    requires
        s.rest_wf(),
        0 <= set < s.processes_by_name.len(),
        settled_upto(s.processes_by_name, set),
    ensures
        s.launch_failed(set, name, message, allocating).wf(),
{
    let t = s.launch_failed(set, name, message, allocating);
    lemma_released(s.free, s.allocated, s.pending_ports);
    assert(pending_set(t.pending_ports) =~= Set::<u16>::empty());
    assert(t.allocated.difference(pending_set(t.pending_ports)) =~= s.allocated.difference(
        pending_set(s.pending_ports),
    ));
}

/// The invariant survives the search for the next service to set up.
pub proof fn lemma_services_wf(s: StateView, index: int)
    requires
        s.wf(),
        s.cursor == (CursorView::Services { index }),
    ensures
        advance_services(s, index).0.wf(),
{
}

/// The invariant survives the decision to launch.
pub proof fn lemma_ensure_wf(s: StateView, set: int)
    requires
        s.wf(),
        s.cursor == (CursorView::Ensure { set }),
    ensures
        advance_ensure(s, set).0.wf(),
{
    let t = advance_ensure(s, set).0;
    if set < s.processes_by_name.len() {
        if t.cursor is Ports {
            assert(pending_set(t.pending_ports) =~= Set::<u16>::empty());
            lemma_ports_in_grow(
                s.processes_by_name,
                s.allocated.difference(pending_set(s.pending_ports)),
                t.allocated.difference(pending_set(t.pending_ports)),
            );
        }
    }
}

/// The invariant survives the allocation stage of a launch.
pub proof fn lemma_ports_wf(s: StateView, set: int, receive: int)
    requires
        s.wf(),
        s.cursor == (CursorView::Ports { set, receive }),
    ensures
        advance_ports(s, set, receive).0.wf(),
{
    let spec = s.launching->0;
    lemma_launch_failed_wf(s, set, spec.name, crate::ports::exhausted_message(), true);
    lemma_launch_failed_wf(s, set, spec.name, crate::model::empty_command_message(), false);
}

/// The invariant survives the counting of connections.
pub proof fn lemma_counts_wf(s: StateView, set: int)
    requires
        s.wf(),
        s.cursor == (CursorView::Counts { set }),
    ensures
        advance_counts(s, set).0.wf(),
{
    let ports = s.allocated.difference(pending_set(s.pending_ports));
    assert(versions_ports_in(s.processes_by_name[set].running_versions, ports));
    let versions = crate::process::counted(s.versions(set), s.last_ipvs_state);
    lemma_counted_ports(s.versions(set), s.last_ipvs_state, ports);
    lemma_with_versions_rest(s, set, versions);
    lemma_update_unsettled(
        s.processes_by_name,
        set,
        s.with_versions(set, versions).processes_by_name[set],
        set,
    );
    assert(s.with_versions(set, versions).processes_by_name =~= s.processes_by_name.update(
        set,
        s.with_versions(set, versions).processes_by_name[set],
    ));
}

/// The invariant survives the decision to probe the newest version.
pub proof fn lemma_promote_wf(s: StateView, set: int, now: u64)
    requires
        s.wf(),
        s.cursor == (CursorView::Promote { set }),
    ensures
        advance_promote(s, set, now).0.wf(),
{
    let versions = s.versions(set);
    if versions.len() > 0 && versions.last().1.status == ProcessStatus::Starting {
        let tail = versions.last();
        let key = crate::model::start_key(tail.1.name);
        let asked = StateView {
            limiter: crate::limiter::gate_after(
                s.limiter,
                key,
                now,
                crate::limiter::START_INTERVAL,
            ),
            ..s
        };
        assert(asked.rest_wf());
        lemma_set_status_rest(asked, set, versions.len() - 1, ProcessStatus::Running);
        let moved = asked.set_status(set, versions.len() - 1, ProcessStatus::Running);
        lemma_update_unsettled(s.processes_by_name, set, moved.processes_by_name[set], set);
        match crate::health::health_plan(tail.0, tail.1.port_allocations) {
            HealthPlanView::MissingPort { service } => {
                lemma_fail_wf(asked, HousekeepingErrorView::NoPortForService { service });
            },
            _ => {},
        }
    }
}

/// The invariant survives the decision to probe a serving version.
pub proof fn lemma_demote_wf(s: StateView, set: int, entry: int, now: u64)
    requires
        s.wf(),
        s.cursor == (CursorView::Demote { set, entry }),
    ensures
        advance_demote(s, set, entry, now).0.wf(),
{
    let versions = s.versions(set);
    if entry < versions.len() && versions[entry].1.status == ProcessStatus::Running {
        let version = versions[entry];
        let key = crate::model::health_key(version.1.name);
        let asked = StateView {
            limiter: crate::limiter::gate_after(
                s.limiter,
                key,
                now,
                crate::limiter::HEALTH_INTERVAL,
            ),
            ..s
        };
        assert(asked.rest_wf());
        match crate::health::health_plan(version.0, version.1.port_allocations) {
            HealthPlanView::MissingPort { service } => {
                lemma_fail_wf(asked, HousekeepingErrorView::NoPortForService { service });
            },
            _ => {},
        }
    }
}

/// The invariant survives sunsetting, which settles the set.
pub proof fn lemma_sunset_wf(s: StateView, set: int)
    requires
        s.wf(),
        s.cursor == (CursorView::Sunset { set }),
    ensures
        advance_sunset(s, set).0.wf(),
{
    let ports = s.allocated.difference(pending_set(s.pending_ports));
    assert(versions_ports_in(s.processes_by_name[set].running_versions, ports));
    let outcome = sunset(s.versions(set));
    lemma_sunset_ports(s.versions(set), ports);
    lemma_sunset_leaves_one(s.versions(set));
    lemma_logged_bounded(s.log, outcome.events);
    lemma_with_versions_rest(s, set, outcome.versions);
    let changed = s.with_versions(set, outcome.versions);
    lemma_update_settled(s.processes_by_name, set, changed.processes_by_name[set], set);
    assert(changed.processes_by_name =~= s.processes_by_name.update(
        set,
        changed.processes_by_name[set],
    ));
}

/// The invariant survives the walk over the children to poll.
pub proof fn lemma_reap_wf(s: StateView, set: int, entry: int)
    requires
        s.wf(),
        s.cursor == (CursorView::Reap { set, entry }),
    ensures
        advance_reap(s, set, entry).0.wf(),
{
}

/// The invariant survives the removal of exited versions.
pub proof fn lemma_collect_wf(s: StateView, set: int)
    requires
        s.wf(),
        s.cursor == (CursorView::Collect { set }),
    ensures
        advance_collect(s, set).0.wf(),
{
    let ports = s.allocated.difference(pending_set(s.pending_ports));
    assert(versions_ports_in(s.processes_by_name[set].running_versions, ports));
    let versions = survivors(s.versions(set));
    lemma_survivors_ports(s.versions(set), ports);
    lemma_survivors_keep_running(s.versions(set));
    assert(running_count(s.processes_by_name[set].running_versions) <= 1);
    lemma_with_versions_rest(s, set, versions);
    let changed = s.with_versions(set, versions);
    lemma_update_settled(s.processes_by_name, set, changed.processes_by_name[set], set + 1);
    assert(changed.processes_by_name =~= s.processes_by_name.update(
        set,
        changed.processes_by_name[set],
    ));
}

/// The invariant survives the comparison of weights.
pub proof fn lemma_weights_wf(s: StateView, set: int, entry: int, binding: int)
    requires
        s.wf(),
        s.cursor == (CursorView::Weights { set, entry, binding }),
    ensures
        advance_weights(s, set, entry, binding).0.wf(),
{
}

/// The invariant survives every move of a pass.
pub proof fn lemma_advance_wf(s: StateView, now: u64)
    requires
        s.wf(),
    ensures
        advance(s, now).0.wf(),
{
    match s.cursor {
        CursorView::Services { index } => lemma_services_wf(s, index),
        CursorView::Ensure { set } => lemma_ensure_wf(s, set),
        CursorView::Ports { set, receive } => lemma_ports_wf(s, set, receive),
        CursorView::Counts { set } => lemma_counts_wf(s, set),
        CursorView::Promote { set } => lemma_promote_wf(s, set, now),
        CursorView::Demote { set, entry } => lemma_demote_wf(s, set, entry, now),
        CursorView::Sunset { set } => lemma_sunset_wf(s, set),
        CursorView::Reap { set, entry } => lemma_reap_wf(s, set, entry),
        CursorView::Collect { set } => lemma_collect_wf(s, set),
        CursorView::Weights { set, entry, binding } => lemma_weights_wf(s, set, entry, binding),
        _ => {},
    }
}

/// The invariant survives the answer to a bind test.
pub proof fn lemma_resume_port_wf(s: StateView, set: int, receive: int, test: BindTestView)
    requires
        s.wf(),
        s.cursor == (CursorView::AwaitPort { set, receive }),
    ensures
        resume_port(s, set, receive, test).0.wf(),
{
    let spec = s.launching->0;
    let tried = StateView {
        free: free_after(s.free, test),
        allocated: allocated_after(s.free, s.allocated, test),
        log: crate::ports::log_after_attempt(s.free, s.log, test),
        emitted: s.emitted + crate::ports::attempt_events(s.free, test),
        ..s
    };
    lemma_attempt_pool(s.free, s.allocated, test);
    let kept = s.allocated.difference(pending_set(s.pending_ports));
    match attempt(s.free, test) {
        AllocationView::Allocated { port } => {
            let bound = bind(s.pending_ports, spec.receives[receive], port);
            lemma_bind_pending(s.pending_ports, s.allocated, spec.receives[receive], port);
            let t = resume_port(s, set, receive, test).0;
            assert(t.allocated == s.allocated.insert(port));
            assert(kept.subset_of(t.allocated.difference(pending_set(bound)))) by {
                assert forall|p: u16| kept.contains(p) implies t.allocated.difference(
                    pending_set(bound),
                ).contains(p) by {
                    if pending_set(bound).contains(p) {
                        assert(p == port || pending_set(s.pending_ports).contains(p));
                    }
                }
            }
            lemma_ports_in_grow(
                s.processes_by_name,
                kept,
                t.allocated.difference(pending_set(bound)),
            );
        },
        AllocationView::Retry => {
            assert(tried.allocated == s.allocated);
        },
        AllocationView::Exhausted => {},
        AllocationView::Failed { message } => {
            assert(tried.allocated == s.allocated);
            assert(tried.rest_wf());
            lemma_launch_failed_wf(tried, set, spec.name, message, true);
        },
    }
}

/// The invariant survives the arrival of a spawned child.
pub proof fn lemma_resume_spawned_wf(
    s: StateView,
    set: int,
    process: u64,
    pid: Option<u32>,
    now: u64,
    word: Seq<char>,
)
    requires
        s.wf(),
        s.cursor == (CursorView::AwaitSpawn { set }),
    ensures
        resume_spawned(s, set, process, pid, now, word).0.wf(),
{
    let spec = s.launching->0;
    let t = resume_spawned(s, set, process, pid, now, word).0;
    let entry = crate::process::new_entry(process, pid, s.pending_ports, word, s.counter, now);
    let kept = s.allocated.difference(pending_set(s.pending_ports));
    assert(pending_set(t.pending_ports) =~= Set::<u16>::empty());
    assert(t.allocated.difference(pending_set(t.pending_ports)) =~= s.allocated);
    lemma_ports_in_grow(s.processes_by_name, kept, s.allocated);
    assert(versions_ports_in(s.processes_by_name[set].running_versions, s.allocated));
    lemma_push_ports(s.versions(set), (spec, entry), s.allocated);
    let changed = crate::process::ProcessSetView {
        running_versions: s.versions(set).push((spec, entry)),
        ..s.processes_by_name[set]
    };
    lemma_update_ports_in(s.processes_by_name, set, changed, s.allocated);
    lemma_update_unsettled(s.processes_by_name, set, changed, set);
    assert(t.processes_by_name =~= s.processes_by_name.update(set, changed));
}

/// The invariant survives every answer taken in, fitting or not.
pub proof fn lemma_resume_wf(s: StateView, event: EventView, now: u64, word: Seq<char>)
    requires
        s.wf(),
    ensures
        resume(s, event, now, word).0.wf(),
{
    let t = resume(s, event, now, word).0;
    lemma_fail_wf(s, HousekeepingErrorView::UnexpectedEvent);
    match (s.cursor, event) {
        (CursorView::Idle, EventView::Tick) => {
            lemma_ensured_ports(
                s.processes_by_name,
                s.target.processes,
                s.allocated.difference(pending_set(s.pending_ports)),
            );
        },
        (CursorView::AwaitSnapshot, EventView::Snapshot { state }) => {},
        (CursorView::AwaitSnapshot, EventView::Failed { message }) => {
            lemma_fail_wf(s, HousekeepingErrorView::Adapter { message });
        },
        (CursorView::AwaitService { index }, EventView::ServiceReset) => {},
        (CursorView::AwaitService { index }, EventView::Failed { message }) => {
            lemma_fail_wf(s, HousekeepingErrorView::Adapter { message });
        },
        (CursorView::AwaitPort { set, receive }, EventView::PortTested { test }) => {
            lemma_resume_port_wf(s, set, receive, test);
        },
        (CursorView::AwaitSpawn { set }, EventView::Spawned { process, pid }) => {
            lemma_resume_spawned_wf(s, set, process, pid, now, word);
        },
        (CursorView::AwaitSpawn { set }, EventView::Failed { message }) => {
            lemma_launch_failed_wf(s, set, s.launching->0.name, message, false);
        },
        (CursorView::AwaitStart { set }, EventView::Probed { reply }) => {
            match crate::health::verdict(reply) {
                Ok(healthy) => {
                    let last = s.versions(set).len() - 1;
                    lemma_set_status_rest(s, set, last, ProcessStatus::Running);
                    let moved = s.set_status(set, last, ProcessStatus::Running);
                    lemma_update_unsettled(
                        s.processes_by_name,
                        set,
                        moved.processes_by_name[set],
                        set,
                    );
                },
                Err(message) => {
                    lemma_fail_wf(s, HousekeepingErrorView::Adapter { message });
                },
            }
        },
        (CursorView::AwaitHealth { set, entry }, EventView::Probed { reply }) => {
            match crate::health::verdict(reply) {
                Ok(healthy) => {
                    lemma_set_status_rest(s, set, entry, ProcessStatus::Unhealthy);
                    let moved = s.set_status(set, entry, ProcessStatus::Unhealthy);
                    lemma_update_unsettled(
                        s.processes_by_name,
                        set,
                        moved.processes_by_name[set],
                        set,
                    );
                },
                Err(message) => {
                    lemma_fail_wf(s, HousekeepingErrorView::Adapter { message });
                },
            }
        },
        (CursorView::AwaitExit { set, entry }, EventView::StillRunning) => {},
        (CursorView::AwaitExit { set, entry }, EventView::Exited { code, approx_time }) => {
            let status = ProcessStatus::Exited {
                exit_status: crate::model::exit_status(code),
                approx_time,
            };
            lemma_set_status_rest(s, set, entry, status);
            let moved = s.set_status(set, entry, status);
            lemma_status_not_running(s.versions(set), entry, status);
            assert(running_count(s.processes_by_name[set].running_versions) <= 1);
            lemma_update_settled(s.processes_by_name, set, moved.processes_by_name[set], set + 1);
        },
        (CursorView::AwaitExit { set, entry }, EventView::Failed { message }) => {
            lemma_fail_wf(s, HousekeepingErrorView::Adapter { message });
        },
        (CursorView::AwaitWeight { set, entry, binding }, EventView::WeightSet) => {},
        (CursorView::AwaitWeight { set, entry, binding }, EventView::Failed { message }) => {
            lemma_fail_wf(s, HousekeepingErrorView::Adapter { message });
        },
        _ => {},
    }
}

/// A move that makes no request leaves the pass at a position from which
/// it can go on by itself.
pub proof fn lemma_advance_internal(s: StateView, now: u64)
    requires
        s.cursor.internal(),
        advance(s, now).1 is None,
    ensures
        advance(s, now).0.cursor.internal(),
{
}

/// An answer that leads to no request leaves the pass at a position from
/// which it can go on by itself.
pub proof fn lemma_resume_internal(s: StateView, event: EventView, now: u64, word: Seq<char>)
    requires
        resume(s, event, now, word).1 is None,
    ensures
        resume(s, event, now, word).0.cursor.internal(),
{
}

} // verus!

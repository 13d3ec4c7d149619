//! What holds of every pass, proved from the pass as `model` defines it.
use crate::config::ProcessSpecView;
use crate::events::{LOG_MAX_SIZE, LogEventView, ProcessStatus};
use crate::health::{HealthPlanView, lemma_probe_path_has_slash};
use crate::model::{
    advance, exit_status, lemma_advance_rank, rank_inner, rank_outer, rank_phase, rank_stage,
    resume, run, settled_upto, tick,
};
use crate::ports::{AllocationView, exhausted_message, lemma_admin_only_range_is_empty};
use crate::preservation::{
    lemma_advance_internal, lemma_advance_wf, lemma_resume_internal, lemma_resume_wf,
};
use crate::process::{
    EntryView, is_running, running_count, status_change, sunset, sunset_walk, sunsetted,
};
use crate::state::{CursorView, EventView, HousekeepingErrorView, RequestView, StateView};
use crate::supervisor::initial_state;
use crate::validation::lemma_valid_target;
use vstd::prelude::*;

verus! {

/// No port is both free and handed out.
pub proof fn law_free_and_allocated_disjoint(s: StateView, port: u16)
    requires
        s.wf(),
    ensures
        !(s.free.contains(port) && s.allocated.contains(port)),
{
    if s.free.contains(port) {
        let i = choose|i: int| 0 <= i < s.free.len() && s.free[i] == port;
        assert(!s.allocated.contains(s.free[i]));
    }
}

/// Every port that a running child holds is handed out.
pub proof fn law_held_ports_are_allocated(s: StateView, set: int, version: int, binding: int)
    requires
        s.wf(),
        0 <= set < s.processes_by_name.len(),
        0 <= version < s.versions(set).len(),
        0 <= binding < s.versions(set)[version].1.port_allocations.len(),
    ensures
        s.allocated.contains(s.versions(set)[version].1.port_allocations[binding].1),
{
    let held = s.allocated.difference(crate::model::pending_set(s.pending_ports));
    assert(crate::model::versions_ports_in(s.processes_by_name[set].running_versions, held));
    assert(crate::model::entry_ports_in(s.versions(set)[version].1, held));
    assert(held.contains(s.versions(set)[version].1.port_allocations[binding].1));
}

/// In the target that stands, no two processes and no two services share
/// a name.
pub proof fn law_accepted_names_unique(s: StateView)
    requires
        s.wf(),
    ensures
        s.target.process_names().no_duplicates(),
        s.target.service_names().no_duplicates(),
{
    lemma_valid_target(s.target);
}

/// The log never holds more than `LOG_MAX_SIZE` events.
pub proof fn law_log_bounded(s: StateView, event: EventView, now: u64, word: Seq<char>)
    requires
        s.wf(),
    ensures
        s.log.len() <= LOG_MAX_SIZE,
        tick(s, event, now, word).0.log.len() <= LOG_MAX_SIZE,
{
    law_tick_keeps_invariant(s, event, now, word);
}

/// Whether every set holds at most one serving version.
pub open spec fn all_settled(s: StateView) -> bool {
    settled_upto(s.processes_by_name, s.processes_by_name.len() as int)
}

/// The two kinds of change that a pass asks the load balancer for.
#[derive(Clone, Copy, Debug, PartialEq, Eq, Structural)]
pub enum Mutation {
    /// The weight of a real server is set.
    Weight,
    /// A virtual service is deleted and created anew.
    Service,
}

/// Whether an event reports a change of the given kind.
pub open spec fn reports(kind: Mutation, event: LogEventView) -> bool {
    match kind {
        Mutation::Weight => event is WeightChange,
        Mutation::Service => event is CreateIpvsService,
    }
}

/// The events of `events` that report a change of the given kind, in order.
pub open spec fn reported(kind: Mutation, events: Seq<LogEventView>) -> Seq<LogEventView> {
    events.filter(|e: LogEventView| reports(kind, e))
}

/// The events of the given kind that go with a request: one for a request
/// to make a change of that kind, carrying what the request carries; none
/// for any other request.
pub open spec fn reports_of(kind: Mutation, request: RequestView) -> Seq<LogEventView> {
    match (kind, request) {
        (Mutation::Weight, RequestView::SetWeight { service, port, weight }) => seq![
            LogEventView::WeightChange { service: service.name, port, weight },
        ],
        (Mutation::Service, RequestView::ResetService { spec }) => seq![
            LogEventView::CreateIpvsService { spec },
        ],
        _ => Seq::empty(),
    }
}

/// The events of the given kind that go with a move's request, if it makes one.
pub open spec fn reports_of_move(kind: Mutation, request: Option<RequestView>) -> Seq<
    LogEventView,
> {
    match request {
        Some(r) => reports_of(kind, r),
        None => Seq::empty(),
    }
}

/// The events of `events` that report a change of weight, in order.
pub open spec fn weight_changes(events: Seq<LogEventView>) -> Seq<LogEventView> {
    reported(Mutation::Weight, events)
}

/// The weight-change events that go with a request: one for a request to
/// set a weight, carrying the same service, port and weight; none for any
/// other request.
pub open spec fn weight_events_of(request: RequestView) -> Seq<LogEventView> {
    reports_of(Mutation::Weight, request)
}

/// Appending an event adds it to the reported ones exactly when it reports
/// a change of the given kind.
proof fn lemma_reported_push(kind: Mutation, events: Seq<LogEventView>, event: LogEventView)
    ensures
        reported(kind, events.push(event)) == if reports(kind, event) {
            reported(kind, events).push(event)
        } else {
            reported(kind, events)
        },
{
    reveal(Seq::filter);
    assert(events.push(event).drop_last() =~= events);
}

/// The reported events of two runs of events are those of the first, then
/// those of the second.
proof fn lemma_reported_concat(
    kind: Mutation,
    first: Seq<LogEventView>,
    second: Seq<LogEventView>,
)
    ensures
        reported(kind, first + second) == reported(kind, first) + reported(kind, second),
    decreases second.len(),
{
    reveal(Seq::filter);
    if second.len() == 0 {
        assert(first + second =~= first);
        assert(reported(kind, second) =~= Seq::empty());
        assert(reported(kind, first) + reported(kind, second) =~= reported(kind, first));
    } else {
        lemma_reported_concat(kind, first, second.drop_last());
        assert((first + second).drop_last() =~= first + second.drop_last());
        assert((first + second).last() == second.last());
        lemma_reported_push(kind, first + second.drop_last(), second.last());
        lemma_reported_push(kind, second.drop_last(), second.last());
        assert(first + second =~= (first + second.drop_last()).push(second.last()));
        assert(second =~= second.drop_last().push(second.last()));
        if reports(kind, second.last()) {
            assert(reported(kind, first) + reported(kind, second.drop_last()).push(second.last())
                =~= (reported(kind, first) + reported(kind, second.drop_last())).push(
                second.last(),
            ));
        }
    }
}

/// Whether an event reports that a child was sunset.
pub open spec fn reports_sunset(event: LogEventView) -> bool {
    event matches LogEventView::StatusChange { status, .. } && status
        == ProcessStatus::Sunsetting
}

/// Sunsetting records only events that report a sunset, and so none that
/// reports a change of the load balancer.
pub proof fn lemma_sunset_events(
    kind: Mutation,
    versions: Seq<(ProcessSpecView, EntryView)>,
    i: int,
    seen: bool,
)
    requires
        0 <= i <= versions.len(),
    ensures
        reported(kind, sunset_walk(versions, i, seen).events) == Seq::<LogEventView>::empty(),
        forall|k: int|
            0 <= k < sunset_walk(versions, i, seen).events.len() ==> reports_sunset(
                #[trigger] sunset_walk(versions, i, seen).events[k],
            ),
    decreases i,
{
    reveal(Seq::filter);
    if i > 0 {
        if !is_running(versions[i - 1]) {
            lemma_sunset_events(kind, versions, i - 1, seen);
        } else if !seen {
            lemma_sunset_events(kind, versions, i - 1, true);
        } else {
            let changed = versions.update(i - 1, sunsetted(versions[i - 1]));
            lemma_sunset_events(kind, changed, i - 1, true);
            let rest = sunset_walk(changed, i - 1, true);
            let event = status_change(versions[i - 1].1.name, ProcessStatus::Sunsetting);
            lemma_reported_concat(kind, seq![event], rest.events);
            assert(seq![event] =~= Seq::<LogEventView>::empty().push(event));
            lemma_reported_push(kind, Seq::empty(), event);
            assert(reported(kind, Seq::<LogEventView>::empty()) =~= Seq::empty());
            assert forall|k: int|
                0 <= k < sunset_walk(versions, i, seen).events.len() implies reports_sunset(
                #[trigger] sunset_walk(versions, i, seen).events[k],
            ) by {
                if k > 0 {
                    assert(sunset_walk(versions, i, seen).events[k] == rest.events[k - 1]);
                }
            }
        }
    } else {
        assert(reported(kind, Seq::<LogEventView>::empty()) =~= Seq::empty());
    }
}

/// The number of the first `i` versions whose status differs between
/// `before` and `after`.
pub open spec fn changed_statuses(
    before: Seq<(ProcessSpecView, EntryView)>,
    after: Seq<(ProcessSpecView, EntryView)>,
    i: int,
) -> nat
    decreases i,
{
    if i <= 0 {
        0
    } else {
        changed_statuses(before, after, i - 1) + if after[i - 1].1.status != before[i
            - 1].1.status {
            1nat
        } else {
            0nat
        }
    }
}

/// The count looks at the first `i` versions only.
proof fn lemma_changed_statuses_agree(
    first: Seq<(ProcessSpecView, EntryView)>,
    second: Seq<(ProcessSpecView, EntryView)>,
    after: Seq<(ProcessSpecView, EntryView)>,
    i: int,
)
    requires
        0 <= i <= first.len(),
        i <= second.len(),
        forall|k: int| 0 <= k < i ==> first[k] == second[k],
    ensures
        changed_statuses(first, after, i) == changed_statuses(second, after, i),
    decreases i,
{
    if i > 0 {
        lemma_changed_statuses_agree(first, second, after, i - 1);
    }
}

/// Sunsetting records exactly one event for each version whose status it
/// changes, and signals at most as many processes.
pub proof fn law_sunset_records_each_change(
    versions: Seq<(ProcessSpecView, EntryView)>,
    i: int,
    seen: bool,
)
    requires
        0 <= i <= versions.len(),
    ensures
        sunset_walk(versions, i, seen).events.len() == changed_statuses(
            versions,
            sunset_walk(versions, i, seen).versions,
            i,
        ),
        sunset_walk(versions, i, seen).signals.len() <= sunset_walk(versions, i, seen).events.len(),
    decreases i,
{
    let after = sunset_walk(versions, i, seen).versions;
    if i > 0 {
        if !is_running(versions[i - 1]) {
            law_sunset_records_each_change(versions, i - 1, seen);
            crate::process::lemma_sunset_walk(versions, i - 1, seen);
        } else if !seen {
            law_sunset_records_each_change(versions, i - 1, true);
            crate::process::lemma_sunset_walk(versions, i - 1, true);
        } else {
            let changed = versions.update(i - 1, sunsetted(versions[i - 1]));
            law_sunset_records_each_change(changed, i - 1, true);
            crate::process::lemma_sunset_walk(changed, i - 1, true);
            lemma_changed_statuses_agree(versions, changed, after, i - 1);
            assert(after[i - 1] == changed[i - 1]);
        }
    }
}

/// A failed launch records no change of the load balancer.
proof fn lemma_launch_failed_quiet(
    kind: Mutation,
    s: StateView,
    set: int,
    name: Seq<char>,
    message: Seq<char>,
    allocating: bool,
)
    ensures
        reported(kind, s.launch_failed(set, name, message, allocating).emitted) == reported(
            kind,
            s.emitted,
        ),
{
    lemma_reported_push(kind, s.emitted, crate::model::allocation_error(message));
    let told = if allocating {
        s.emit(crate::model::allocation_error(message))
    } else {
        s
    };
    lemma_reported_push(kind, told.emitted, crate::model::launch_error(name, message));
}

/// A change of status records no change of the load balancer.
proof fn lemma_set_status_quiet(
    kind: Mutation,
    s: StateView,
    set: int,
    entry: int,
    status: ProcessStatus,
)
    ensures
        reported(kind, s.set_status(set, entry, status).emitted) == reported(kind, s.emitted),
{
    lemma_reported_push(kind, s.emitted, status_change(s.versions(set)[entry].1.name, status));
}

/// Giving a pass up records no change of the load balancer.
proof fn lemma_fail_quiet(kind: Mutation, s: StateView, error: HousekeepingErrorView)
    ensures
        reported(kind, s.fail(error).0.emitted) == reported(kind, s.emitted),
        reports_of_move(kind, s.fail(error).1) == Seq::<LogEventView>::empty(),
{
    lemma_reported_push(kind, s.emitted, crate::model::housekeeping_error(error));
}

/// A move records a change of the load balancer exactly when it asks for
/// one.
pub proof fn lemma_advance_reports(kind: Mutation, s: StateView, now: u64)
    requires
        s.cursor_wf(),
    ensures
        reported(kind, advance(s, now).0.emitted) == reported(kind, s.emitted)
            + reports_of_move(kind, advance(s, now).1),
{
    let t = advance(s, now);
    assert(reported(kind, s.emitted) + Seq::<LogEventView>::empty() =~= reported(
        kind,
        s.emitted,
    ));
    match s.cursor {
        CursorView::Services { index } => {
            if index < s.target.services.len() {
                let event = LogEventView::CreateIpvsService { spec: s.target.services[index] };
                lemma_reported_push(kind, s.emitted, event);
                assert(reported(kind, s.emitted).push(event) =~= reported(kind, s.emitted)
                    + seq![event]);
            }
        },
        CursorView::Ensure { set } => {},
        CursorView::Ports { set, receive } => {
            let spec = s.launching->0;
            lemma_launch_failed_quiet(kind, s, set, spec.name, exhausted_message(), true);
            lemma_launch_failed_quiet(kind, s,
                set,
                spec.name,
                crate::model::empty_command_message(),
                false,
            );
        },
        CursorView::Counts { set } => {},
        CursorView::Promote { set } => {
            let versions = s.versions(set);
            if versions.len() > 0 {
                let tail = versions.last();
                let asked = StateView {
                    limiter: crate::limiter::gate_after(
                        s.limiter,
                        crate::model::start_key(tail.1.name),
                        now,
                        crate::limiter::START_INTERVAL,
                    ),
                    ..s
                };
                lemma_set_status_quiet(kind, asked, set, versions.len() - 1, ProcessStatus::Running);
                match crate::health::health_plan(tail.0, tail.1.port_allocations) {
                    HealthPlanView::MissingPort { service } => {
                        lemma_fail_quiet(kind, asked,
                            HousekeepingErrorView::NoPortForService { service },
                        );
                    },
                    _ => {},
                }
            }
        },
        CursorView::Demote { set, entry } => {
            let versions = s.versions(set);
            if entry < versions.len() {
                let version = versions[entry];
                let asked = StateView {
                    limiter: crate::limiter::gate_after(
                        s.limiter,
                        crate::model::health_key(version.1.name),
                        now,
                        crate::limiter::HEALTH_INTERVAL,
                    ),
                    ..s
                };
                match crate::health::health_plan(version.0, version.1.port_allocations) {
                    HealthPlanView::MissingPort { service } => {
                        lemma_fail_quiet(kind, asked,
                            HousekeepingErrorView::NoPortForService { service },
                        );
                    },
                    _ => {},
                }
            }
        },
        CursorView::Sunset { set } => {
            let outcome = sunset(s.versions(set));
            lemma_sunset_events(kind, s.versions(set), s.versions(set).len() as int, false);
            lemma_reported_concat(kind, s.emitted, outcome.events);
        },
        CursorView::Reap { set, entry } => {},
        CursorView::Collect { set } => {},
        CursorView::Weights { set, entry, binding } => {
            if set < s.processes_by_name.len() && entry < s.versions(set).len() && binding
                < s.versions(set)[entry].1.port_allocations.len() {
                let version = s.versions(set)[entry];
                let bound = version.1.port_allocations[binding];
                let k = s.target.service_position(bound.0);
                let wanted = version.1.status.target_weight();
                lemma_fail_quiet(kind, s, HousekeepingErrorView::ServiceNotFound { service: bound.0 });
                if k < s.target.services.len() {
                    let event = LogEventView::WeightChange {
                        service: s.target.services[k].name,
                        port: bound.1,
                        weight: wanted as i32,
                    };
                    lemma_reported_push(kind, s.emitted, event);
                    assert(reported(kind, s.emitted).push(event) =~= reported(kind, s.emitted)
                        + seq![event]);
                }
            }
        },
        _ => {},
    }
}

/// Taking in an answer records no change of the load balancer and asks
/// for none.
pub proof fn lemma_resume_reports(
    kind: Mutation,
    s: StateView,
    event: EventView,
    now: u64,
    word: Seq<char>,
)
    requires
        s.cursor_wf(),
    ensures
        reported(kind, resume(s, event, now, word).0.emitted) == reported(kind, s.emitted),
        reports_of_move(kind, resume(s, event, now, word).1) == Seq::<LogEventView>::empty(),
{
    lemma_fail_quiet(kind, s, HousekeepingErrorView::UnexpectedEvent);
    match (s.cursor, event) {
        (CursorView::AwaitSnapshot, EventView::Failed { message }) => {
            lemma_fail_quiet(kind, s, HousekeepingErrorView::Adapter { message });
        },
        (CursorView::AwaitService { index }, EventView::Failed { message }) => {
            lemma_fail_quiet(kind, s, HousekeepingErrorView::Adapter { message });
        },
        (CursorView::AwaitPort { set, receive }, EventView::PortTested { test }) => {
            if s.launching is Some {
                let spec = s.launching->0;
                let tried = StateView {
                    free: crate::ports::free_after(s.free, test),
                    allocated: crate::ports::allocated_after(s.free, s.allocated, test),
                    log: crate::ports::log_after_attempt(s.free, s.log, test),
                    emitted: s.emitted + crate::ports::attempt_events(s.free, test),
                    ..s
                };
                lemma_reported_concat(kind, s.emitted, crate::ports::attempt_events(s.free, test));
                reveal(Seq::filter);
                assert(reported(kind, Seq::<LogEventView>::empty()) =~= Seq::empty());
                if s.free.len() > 0 {
                    lemma_reported_push(
                        kind,
                        Seq::empty(),
                        crate::ports::in_use_warning(s.free[0]),
                    );
                    assert(seq![crate::ports::in_use_warning(s.free[0])] =~= Seq::<
                        LogEventView,
                    >::empty().push(crate::ports::in_use_warning(s.free[0])));
                }
                assert(reported(kind, s.emitted) + Seq::<LogEventView>::empty()
                    =~= reported(kind, s.emitted));
                lemma_launch_failed_quiet(kind, tried, set, spec.name, exhausted_message(), true);
                match crate::ports::attempt(s.free, test) {
                    AllocationView::Failed { message } => {
                        lemma_launch_failed_quiet(kind, tried, set, spec.name, message, true);
                    },
                    _ => {},
                }
            }
        },
        (CursorView::AwaitSpawn { set }, EventView::Spawned { process, pid }) => {
            if s.launching is Some {
                let spec = s.launching->0;
                let entry = crate::process::new_entry(
                    process,
                    pid,
                    s.pending_ports,
                    word,
                    s.counter,
                    now,
                );
                lemma_reported_push(
                    kind,
                    s.emitted,
                    LogEventView::LaunchProcess {
                        name: entry.name,
                        process_name: spec.name,
                        port_allocations: s.pending_ports,
                    },
                );
            }
        },
        (CursorView::AwaitSpawn { set }, EventView::Failed { message }) => {
            if s.launching is Some {
                lemma_launch_failed_quiet(kind, s, set, s.launching->0.name, message, false);
            }
        },
        (CursorView::AwaitStart { set }, EventView::Probed { reply }) => {
            lemma_set_status_quiet(kind, s, set, s.versions(set).len() - 1, ProcessStatus::Running);
            match crate::health::verdict(reply) {
                Err(message) => {
                    lemma_fail_quiet(kind, s, HousekeepingErrorView::Adapter { message });
                },
                _ => {},
            }
        },
        (CursorView::AwaitHealth { set, entry }, EventView::Probed { reply }) => {
            lemma_set_status_quiet(kind, s, set, entry, ProcessStatus::Unhealthy);
            match crate::health::verdict(reply) {
                Err(message) => {
                    lemma_fail_quiet(kind, s, HousekeepingErrorView::Adapter { message });
                },
                _ => {},
            }
        },
        (CursorView::AwaitExit { set, entry }, EventView::Exited { code, approx_time }) => {
            lemma_set_status_quiet(kind, s,
                set,
                entry,
                ProcessStatus::Exited { exit_status: exit_status(code), approx_time },
            );
        },
        (CursorView::AwaitExit { set, entry }, EventView::Failed { message }) => {
            lemma_fail_quiet(kind, s, HousekeepingErrorView::Adapter { message });
        },
        (CursorView::AwaitWeight { set, entry, binding }, EventView::Failed { message }) => {
            lemma_fail_quiet(kind, s, HousekeepingErrorView::Adapter { message });
        },
        _ => {},
    }
}

/// What holds when a pass has gone on by itself up to its next request:
/// the invariant; a completed pass has left every set with at most one
/// serving version; and a change of the given kind was recorded exactly
/// when the request asks for one.
pub proof fn lemma_run(kind: Mutation, s: StateView, now: u64)
    requires
        s.wf(),
        s.cursor.internal(),
    ensures
        run(s, now).0.wf(),
        run(s, now).1 is Done ==> all_settled(run(s, now).0),
        reported(kind, run(s, now).0.emitted) == reported(kind, s.emitted) + reports_of(
            kind,
            run(s, now).1,
        ),
    decreases rank_phase(s), rank_outer(s), rank_stage(s), rank_inner(s),
{
    let next = advance(s, now);
    lemma_advance_wf(s, now);
    lemma_advance_reports(kind, s, now);
    match next.1 {
        None => {
            lemma_advance_internal(s, now);
            lemma_advance_rank(s, now);
            lemma_run(kind, next.0, now);
            assert(reported(kind, s.emitted) + Seq::<LogEventView>::empty() =~= reported(
                kind,
                s.emitted,
            ));
        },
        Some(request) => {},
    }
}

/// The invariant survives every step of a pass.
pub proof fn law_tick_keeps_invariant(s: StateView, event: EventView, now: u64, word: Seq<char>)
    requires
        s.wf(),
    ensures
        tick(s, event, now, word).0.wf(),
{
    let fresh = StateView { emitted: Seq::empty(), signals: Seq::empty(), ..s };
    lemma_resume_wf(fresh, event, now, word);
    let resumed = resume(fresh, event, now, word);
    if resumed.1 is None {
        lemma_resume_internal(fresh, event, now, word);
        lemma_run(Mutation::Weight, resumed.0, now);
    }
}

/// When a pass completes, every set holds at most one serving version.
pub proof fn law_completed_pass_leaves_one_running(
    s: StateView,
    event: EventView,
    now: u64,
    word: Seq<char>,
    set: int,
)
    requires
        s.wf(),
        tick(s, event, now, word).1.request is Done,
        0 <= set < tick(s, event, now, word).0.processes_by_name.len(),
    ensures
        running_count(tick(s, event, now, word).0.processes_by_name[set].running_versions) <= 1,
        all_settled(tick(s, event, now, word).0),
{
    let fresh = StateView { emitted: Seq::empty(), signals: Seq::empty(), ..s };
    lemma_resume_wf(fresh, event, now, word);
    let resumed = resume(fresh, event, now, word);
    if resumed.1 is None {
        lemma_resume_internal(fresh, event, now, word);
        lemma_run(Mutation::Weight, resumed.0, now);
    }
}

/// A step records a change of the load balancer exactly when it asks for
/// one, and then exactly one event, which carries what the request carries:
/// a `WeightChange` for a weight to be set, a `CreateIpvsService` for a
/// service to be set up.
pub proof fn law_change_recorded_iff_requested(
    kind: Mutation,
    s: StateView,
    event: EventView,
    now: u64,
    word: Seq<char>,
)
    requires
        s.wf(),
    ensures
        reported(kind, tick(s, event, now, word).1.events) == reports_of(
            kind,
            tick(s, event, now, word).1.request,
        ),
{
    reveal(Seq::filter);
    let fresh = StateView { emitted: Seq::empty(), signals: Seq::empty(), ..s };
    assert(reported(kind, fresh.emitted) =~= Seq::empty());
    lemma_resume_wf(fresh, event, now, word);
    lemma_resume_reports(kind, fresh, event, now, word);
    let resumed = resume(fresh, event, now, word);
    if resumed.1 is None {
        lemma_resume_internal(fresh, event, now, word);
        lemma_run(kind, resumed.0, now);
        assert(Seq::<LogEventView>::empty() + reports_of(kind, run(resumed.0, now).1)
            =~= reports_of(kind, run(resumed.0, now).1));
    }
}

/// A step records a change of weight exactly when it asks for a weight to
/// be set, and then exactly one, for the same service, port and weight.
pub proof fn law_weight_change_iff_requested(
    s: StateView,
    event: EventView,
    now: u64,
    word: Seq<char>,
)
    requires
        s.wf(),
    ensures
        weight_changes(tick(s, event, now, word).1.events) == weight_events_of(
            tick(s, event, now, word).1.request,
        ),
{
    law_change_recorded_iff_requested(Mutation::Weight, s, event, now, word);
}

/// A change of status records exactly one event, which names the child and
/// carries the new status, and changes nothing else of the child.
pub proof fn law_status_change_records_one_event(
    s: StateView,
    set: int,
    entry: int,
    status: ProcessStatus,
)
    requires
        0 <= set < s.processes_by_name.len(),
        0 <= entry < s.versions(set).len(),
    ensures
        s.set_status(set, entry, status).emitted == s.emitted.push(
            status_change(s.versions(set)[entry].1.name, status),
        ),
        s.set_status(set, entry, status).versions(set)[entry].1 == (EntryView {
            status,
            ..s.versions(set)[entry].1
        }),
{
}

/// A range that holds the admin port alone yields an empty pool.
pub proof fn law_admin_only_pool_is_empty(
    admin: u16,
    target_text: Seq<char>,
    target: crate::config::HujingzhiTargetView,
    adjectives: Seq<Seq<char>>,
    nouns: Seq<Seq<char>>,
)
    requires
        admin < u16::MAX,
    ensures
        initial_state(
            admin,
            (admin + 1) as u16,
            admin,
            target_text,
            target,
            adjectives,
            nouns,
        ).free.len() == 0,
{
    lemma_admin_only_range_is_empty(admin);
}

/// With an empty pool, a launch that needs a port fails with port
/// exhaustion: no request is made, no port is handed out, and the failure
/// is the last event recorded.
pub proof fn law_empty_pool_fails_launch(s: StateView, set: int, receive: int, now: u64)
    requires
        s.cursor == (CursorView::Ports { set, receive }),
        s.launching is Some,
        0 <= receive < s.launching->0.receives.len(),
        s.free.len() == 0,
    ensures
        advance(s, now).1 is None,
        advance(s, now).0 == s.launch_failed(set, s.launching->0.name, exhausted_message(), true),
        advance(s, now).0.emitted.last() == crate::model::launch_error(
            s.launching->0.name,
            exhausted_message(),
        ),
        advance(s, now).0.processes_by_name == s.processes_by_name,
{
}

/// A child found to have exited goes straight to `Exited`, whatever its
/// status was, with exactly one event; it does not pass through `Running`.
pub proof fn law_reaped_child_is_exited(
    s: StateView,
    set: int,
    entry: int,
    code: Option<i32>,
    approx_time: u64,
    now: u64,
    word: Seq<char>,
)
    requires
        s.cursor == (CursorView::AwaitExit { set, entry }),
        0 <= set < s.processes_by_name.len(),
        0 <= entry < s.versions(set).len(),
    ensures
        ({
            let after = resume(s, EventView::Exited { code, approx_time }, now, word).0;
            let exited = ProcessStatus::Exited { exit_status: exit_status(code), approx_time };
            &&& after.versions(set)[entry].1.status == exited
            &&& after.emitted == s.emitted.push(
                status_change(s.versions(set)[entry].1.name, exited),
            )
        }),
{
}

/// The path of every probe begins with `/`.
pub proof fn law_probe_path_begins_with_slash(path: Seq<char>)
    ensures
        crate::health::probe_path(path).len() > 0,
        crate::health::probe_path(path)[0] == '/',
{
    lemma_probe_path_has_slash(path);
}

} // verus!

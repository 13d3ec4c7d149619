//! The fixed point of reconciliation: once the state matches the target
//! and the kernel's weights match the state, a pass whose probes succeed
//! and whose children still run changes nothing and records nothing.
use crate::config::ProcessSpecView;
use crate::events::{LogEventView, ProcessStatus};
use crate::health::{health_plan, HealthPlanView, verdict};
use crate::ipvs::{IpvsStateView, weight_on};
use crate::model::{
    advance, ensured, lemma_advance_rank, rank_inner, rank_outer, rank_phase, rank_stage, resume,
    run, set_position, tick,
};
use crate::preservation::{lemma_advance_internal, lemma_advance_wf, lemma_resume_wf};
use crate::process::{
    connection_total, counted, EntryView, is_running, ProcessSetView, running_count, sunset,
    sunset_walk, survives, survivors,
};
use crate::state::{CursorView, EventView, RequestView, StateView};
use vstd::prelude::*;

verus! {

/// Whether a version needs nothing done: its child serves, is unhealthy or
/// is being sunset; its connection count is what the snapshot gives; its
/// health check, if any, names a service it holds a port for; and every
/// port it holds belongs to a service of the target and carries, in the
/// snapshot, the weight that the child's status calls for.
pub open spec fn version_steady(
    s: StateView,
    version: (ProcessSpecView, EntryView),
    snapshot: IpvsStateView,
) -> bool {
    &&& version.1.status != ProcessStatus::Starting
    &&& !(version.1.status is Exited)
    &&& version.1.approx_conn_count == connection_total(
        version.1.port_allocations,
        Some(snapshot),
    ) as i128
    &&& !(health_plan(version.0, version.1.port_allocations) is MissingPort)
    &&& forall|b: int|
        0 <= b < version.1.port_allocations.len() ==> s.target.service_position(
            (#[trigger] version.1.port_allocations[b]).0,
        ) < s.target.services.len() && weight_on(Some(snapshot), version.1.port_allocations[b].1)
            == version.1.status.target_weight()
}

/// Whether a set needs nothing done: at most one version serves, every
/// version is steady, and if the target names the set, its newest version
/// was launched from the target's spec.
pub open spec fn set_steady(s: StateView, set: ProcessSetView, snapshot: IpvsStateView) -> bool {
    let p = s.target.process_position(set.name);
    &&& running_count(set.running_versions) <= 1
    &&& forall|v: int|
        0 <= v < set.running_versions.len() ==> version_steady(
            s,
            #[trigger] set.running_versions[v],
            snapshot,
        )
    &&& p < s.target.processes.len() ==> set.running_versions.len() > 0
        && set.running_versions.last().0 == s.target.processes[p]
}

/// Whether reconciliation has nothing left to do, given the kernel's
/// snapshot: every service of the target was set up, every process of the
/// target has a set, and every set is steady.
pub open spec fn steady(s: StateView, snapshot: IpvsStateView) -> bool {
    &&& forall|i: int|
        0 <= i < s.target.services.len() ==> s.processed_services.contains(
            (#[trigger] s.target.services[i]).name,
        )
    &&& forall|i: int|
        0 <= i < s.target.processes.len() ==> set_position(
            s.processes_by_name,
            (#[trigger] s.target.processes[i]).name,
        ) < s.processes_by_name.len()
    &&& forall|k: int|
        0 <= k < s.processes_by_name.len() ==> set_steady(
            s,
            #[trigger] s.processes_by_name[k],
            snapshot,
        )
}

/// The positions a pass goes through when nothing is left to do.
pub open spec fn quiet_cursor(cursor: CursorView) -> bool {
    match cursor {
        CursorView::AwaitService { .. } => false,
        CursorView::Ports { .. } => false,
        CursorView::AwaitPort { .. } => false,
        CursorView::AwaitSpawn { .. } => false,
        CursorView::AwaitStart { .. } => false,
        CursorView::AwaitWeight { .. } => false,
        _ => true,
    }
}

/// Whether the pass, once past the snapshot, works on `snapshot`.
pub open spec fn on_snapshot(s: StateView, snapshot: IpvsStateView) -> bool {
    s.cursor is Idle || s.cursor is AwaitSnapshot || s.last_ipvs_state == Some(snapshot)
}

/// An answer that reports no change: the tick itself, the same snapshot,
/// a probe that finds the child healthy, a child that still runs.
pub open spec fn quiet_answer(s: StateView, event: EventView, snapshot: IpvsStateView) -> bool {
    match (s.cursor, event) {
        (CursorView::Idle, EventView::Tick) => true,
        (CursorView::AwaitSnapshot, EventView::Snapshot { state }) => state == snapshot,
        (CursorView::AwaitHealth { .. }, EventView::Probed { reply }) => verdict(reply) == Ok::<
            bool,
            Seq<char>,
        >(true),
        (CursorView::AwaitExit { .. }, EventView::StillRunning) => true,
        _ => false,
    }
}

/// Whether a request changes nothing outside the supervisor.
pub open spec fn quiet_request(request: RequestView) -> bool {
    request is Snapshot || request is Probe || request is PollExit || request is Done
}

/// Whether `t` is `s` but for the pass's position, the rate limiter and the
/// cached snapshot.
pub open spec fn same_but_progress(s: StateView, t: StateView) -> bool {
    t == (StateView {
        cursor: t.cursor,
        limiter: t.limiter,
        last_ipvs_state: t.last_ipvs_state,
        ..s
    })
}

/// With at most one serving version, sunsetting changes nothing.
pub proof fn lemma_sunset_of_settled(versions: Seq<(ProcessSpecView, EntryView)>, i: int, seen: bool)
    requires
        0 <= i <= versions.len(),
        running_count(versions.take(i)) + (if seen {
            1nat
        } else {
            0nat
        }) <= 1,
    ensures
        sunset_walk(versions, i, seen).versions == versions,
        sunset_walk(versions, i, seen).events == Seq::<LogEventView>::empty(),
        sunset_walk(versions, i, seen).signals == Seq::<u32>::empty(),
    decreases i,
{
    if i > 0 {
        assert(versions.take(i).drop_last() =~= versions.take(i - 1));
        assert(versions.take(i).last() == versions[i - 1]);
        if !is_running(versions[i - 1]) {
            lemma_sunset_of_settled(versions, i - 1, seen);
        } else {
            lemma_sunset_of_settled(versions, i - 1, true);
        }
    }
}

/// Sunsetting is idempotent: a second walk over what the first one left
/// changes nothing and records nothing.
pub proof fn lemma_sunset_idempotent(versions: Seq<(ProcessSpecView, EntryView)>)
    ensures
        sunset(sunset(versions).versions).versions == sunset(versions).versions,
        sunset(sunset(versions).versions).events == Seq::<LogEventView>::empty(),
        sunset(sunset(versions).versions).signals == Seq::<u32>::empty(),
{
    let once = sunset(versions).versions;
    crate::process::lemma_sunset_leaves_one(versions);
    assert(once.take(once.len() as int) =~= once);
    lemma_sunset_of_settled(once, once.len() as int, false);
}

/// Where no version has exited, none is dropped.
pub proof fn lemma_survivors_of_alive(versions: Seq<(ProcessSpecView, EntryView)>)
    requires
        forall|v: int| 0 <= v < versions.len() ==> survives(#[trigger] versions[v]),
    ensures
        survivors(versions) == versions,
    decreases versions.len(),
{
    reveal(Seq::filter);
    if versions.len() > 0 {
        let shorter = versions.drop_last();
        assert forall|v: int| 0 <= v < shorter.len() implies survives(#[trigger] shorter[v]) by {
            assert(shorter[v] == versions[v]);
        }
        lemma_survivors_of_alive(shorter);
        assert(versions.last() == versions[versions.len() - 1]);
        assert(shorter.push(versions.last()) =~= versions);
    }
}

/// Where every process of the target has a set, none is added.
pub proof fn lemma_ensured_of_complete(sets: Seq<ProcessSetView>, processes: Seq<ProcessSpecView>)
    requires
        forall|i: int|
            0 <= i < processes.len() ==> set_position(sets, (#[trigger] processes[i]).name)
                < sets.len(),
    ensures
        ensured(sets, processes) == sets,
    decreases processes.len(),
{
    if processes.len() > 0 {
        let shorter = processes.drop_last();
        assert forall|i: int| 0 <= i < shorter.len() implies set_position(
            sets,
            (#[trigger] shorter[i]).name,
        ) < sets.len() by {
            assert(shorter[i] == processes[i]);
        }
        lemma_ensured_of_complete(sets, shorter);
        assert(processes.last() == processes[processes.len() - 1]);
    }
}

/// In a steady state, a move of the pass changes nothing but the pass's
/// position and the rate limiter, records nothing, and asks for nothing
/// that would change the world.
pub proof fn lemma_advance_steady(s: StateView, now: u64, snapshot: IpvsStateView)
    requires
        s.wf(),
        s.cursor.internal(),
        quiet_cursor(s.cursor),
        steady(s, snapshot),
        s.last_ipvs_state == Some(snapshot),
    ensures
        same_but_progress(s, advance(s, now).0),
        advance(s, now).0.last_ipvs_state == s.last_ipvs_state,
        quiet_cursor(advance(s, now).0.cursor),
        advance(s, now).1 matches Some(request) ==> quiet_request(request),
{
    let t = advance(s, now).0;
    match s.cursor {
        CursorView::Services { index } => {},
        CursorView::Ensure { set } => {
            if set < s.processes_by_name.len() {
                assert(set_steady(s, s.processes_by_name[set], snapshot));
            }
        },
        CursorView::Counts { set } => {
            let versions = s.versions(set);
            assert(set_steady(s, s.processes_by_name[set], snapshot));
            assert(counted(versions, s.last_ipvs_state) =~= versions) by {
                assert forall|v: int| 0 <= v < versions.len() implies counted(
                    versions,
                    s.last_ipvs_state,
                )[v] == versions[v] by {
                    assert(version_steady(s, versions[v], snapshot));
                }
            }
            assert(t.processes_by_name =~= s.processes_by_name);
        },
        CursorView::Promote { set } => {
            let versions = s.versions(set);
            assert(set_steady(s, s.processes_by_name[set], snapshot));
            if versions.len() > 0 {
                assert(versions.last() == versions[versions.len() - 1]);
                assert(version_steady(s, versions[versions.len() - 1], snapshot));
            }
        },
        CursorView::Demote { set, entry } => {
            let versions = s.versions(set);
            assert(set_steady(s, s.processes_by_name[set], snapshot));
            if entry < versions.len() {
                assert(version_steady(s, versions[entry], snapshot));
            }
        },
        CursorView::Sunset { set } => {
            let versions = s.versions(set);
            assert(set_steady(s, s.processes_by_name[set], snapshot));
            assert(versions.take(versions.len() as int) =~= versions);
            lemma_sunset_of_settled(versions, versions.len() as int, false);
            assert(t.processes_by_name =~= s.processes_by_name);
            assert(s.emitted + Seq::<LogEventView>::empty() =~= s.emitted);
            assert(s.signals + Seq::<u32>::empty() =~= s.signals);
            assert(crate::events::logged(s.log, Seq::empty()) == s.log);
        },
        CursorView::Reap { set, entry } => {},
        CursorView::Collect { set } => {
            let versions = s.versions(set);
            assert(set_steady(s, s.processes_by_name[set], snapshot));
            assert forall|v: int| 0 <= v < versions.len() implies survives(
                #[trigger] versions[v],
            ) by {
                assert(version_steady(s, versions[v], snapshot));
            }
            lemma_survivors_of_alive(versions);
            assert(t.processes_by_name =~= s.processes_by_name);
        },
        CursorView::Weights { set, entry, binding } => {
            if set < s.processes_by_name.len() && entry < s.versions(set).len() {
                let version = s.versions(set)[entry];
                assert(set_steady(s, s.processes_by_name[set], snapshot));
                assert(version_steady(s, version, snapshot));
                if binding < version.1.port_allocations.len() {
                    let bound = version.1.port_allocations[binding];
                    assert(s.target.service_position(bound.0) < s.target.services.len());
                }
            }
        },
        _ => {},
    }
}

/// In a steady state, the pass carried on up to its next request changes
/// nothing but its position and the rate limiter, records nothing, and
/// asks for nothing that would change the world.
pub proof fn lemma_run_steady(s: StateView, now: u64, snapshot: IpvsStateView)
    requires
        s.wf(),
        s.cursor.internal(),
        quiet_cursor(s.cursor),
        steady(s, snapshot),
        s.last_ipvs_state == Some(snapshot),
    ensures
        same_but_progress(s, run(s, now).0),
        run(s, now).0.last_ipvs_state == s.last_ipvs_state,
        quiet_cursor(run(s, now).0.cursor),
        quiet_request(run(s, now).1),
    decreases rank_phase(s), rank_outer(s), rank_stage(s), rank_inner(s),
{
    let next = advance(s, now);
    lemma_advance_wf(s, now);
    lemma_advance_steady(s, now, snapshot);
    if next.1 is None {
        lemma_advance_internal(s, now);
        lemma_advance_rank(s, now);
        assert(steady(next.0, snapshot));
        lemma_run_steady(next.0, now, snapshot);
    }
}

/// The fixed point: in a steady state, a step that takes in an answer
/// reporting no change leaves the target, the sets, the pool and the log
/// as they were, records no event, signals no process, asks for nothing
/// that would change the world, and leaves the state steady.
pub proof fn law_steady_state_is_fixed_point(
    s: StateView,
    event: EventView,
    now: u64,
    word: Seq<char>,
    snapshot: IpvsStateView,
)
    requires
        s.wf(),
        steady(s, snapshot),
        quiet_cursor(s.cursor),
        on_snapshot(s, snapshot),
        quiet_answer(s, event, snapshot),
    ensures
        same_but_progress(
            StateView { emitted: Seq::empty(), signals: Seq::empty(), ..s },
            tick(s, event, now, word).0,
        ),
        tick(s, event, now, word).1.events == Seq::<LogEventView>::empty(),
        tick(s, event, now, word).1.signals == Seq::<u32>::empty(),
        quiet_request(tick(s, event, now, word).1.request),
        steady(tick(s, event, now, word).0, snapshot),
        quiet_cursor(tick(s, event, now, word).0.cursor),
        on_snapshot(tick(s, event, now, word).0, snapshot),
{
    let fresh = StateView { emitted: Seq::empty(), signals: Seq::empty(), ..s };
    assert(steady(fresh, snapshot));
    lemma_resume_wf(fresh, event, now, word);
    let resumed = resume(fresh, event, now, word);
    match (s.cursor, event) {
        (CursorView::Idle, EventView::Tick) => {
            lemma_ensured_of_complete(s.processes_by_name, s.target.processes);
        },
        _ => {},
    }
    if resumed.1 is None {
        assert(steady(resumed.0, snapshot));
        lemma_run_steady(resumed.0, now, snapshot);
        let ended = run(resumed.0, now);
        assert(steady(ended.0, snapshot));
    }
}

} // verus!

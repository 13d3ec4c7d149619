//! What the supervisor keeps by name, it keeps once: one set for a process
//! name, one entry for a service set up, one bucket for a rate-limit key,
//! one port for a service a child receives.
use crate::config::ProcessSpecView;
use crate::events::ProcessStatus;
use crate::health::{bind, binding_position, HealthPlanView, lemma_binding_position};
use crate::limiter::{bucket_position, gate_after, lemma_bucket_position};
use crate::model::{
    advance, ensured, lemma_advance_rank, lemma_set_position, rank_inner, rank_outer, rank_phase,
    rank_stage, resume, run, set_position, tick,
};
use crate::ports::{AllocationView, attempt};
use crate::preservation::{
    lemma_advance_internal, lemma_advance_wf, lemma_resume_internal, lemma_resume_wf,
};
use crate::process::{
    counted, EntryView, lemma_sunset_walk, new_entry, ProcessSetView, sunset, survives, survivors,
};
use crate::state::{CursorView, EventView, StateView};
use vstd::prelude::*;

verus! {

/// Whether no two pairs have the same name.
pub open spec fn distinct_names<V>(pairs: Seq<(Seq<char>, V)>) -> bool {
    forall|i: int, j: int|
        0 <= i < j < pairs.len() ==> (#[trigger] pairs[i]).0 != (#[trigger] pairs[j]).0
}

/// Whether no two sets have the same name.
pub open spec fn distinct_sets(sets: Seq<ProcessSetView>) -> bool {
    forall|i: int, j: int|
        0 <= i < j < sets.len() ==> (#[trigger] sets[i]).name != (#[trigger] sets[j]).name
}

/// Whether every child holds at most one port for a service.
pub open spec fn versions_unique(versions: Seq<(ProcessSpecView, EntryView)>) -> bool {
    forall|v: int|
        0 <= v < versions.len() ==> distinct_names((#[trigger] versions[v]).1.port_allocations)
}

/// Whether every child of every set holds at most one port for a service.
pub open spec fn sets_unique(sets: Seq<ProcessSetView>) -> bool {
    forall|k: int| 0 <= k < sets.len() ==> versions_unique((#[trigger] sets[k]).running_versions)
}

/// Whether the service the pass is setting up is not yet among those set up.
pub open spec fn service_pending(s: StateView) -> bool {
    s.cursor matches CursorView::AwaitService { index } ==> 0 <= index < s.target.services.len()
        && !s.processed_services.contains(s.target.services[index].name)
}

/// The invariant of names: nothing that is kept by name is kept twice.
pub open spec fn unique(s: StateView) -> bool {
    &&& distinct_sets(s.processes_by_name)
    &&& sets_unique(s.processes_by_name)
    &&& s.processed_services.no_duplicates()
    &&& distinct_names(s.limiter)
    &&& distinct_names(s.pending_ports)
    &&& service_pending(s)
}

/// A request to the rate limiter adds no second bucket for a key.
pub proof fn lemma_gate_distinct(
    buckets: Seq<(Seq<char>, u64)>,
    key: Seq<char>,
    now: u64,
    interval: u64,
)
    requires
        distinct_names(buckets),
    ensures
        distinct_names(gate_after(buckets, key, now, interval)),
{
    lemma_bucket_position(buckets, key);
    let after = gate_after(buckets, key, now, interval);
    let k = bucket_position(buckets, key);
    assert forall|i: int, j: int| 0 <= i < j < after.len() implies (#[trigger] after[i]).0 != (
    #[trigger] after[j]).0 by {
        if k >= buckets.len() {
            assert(after[i] == buckets[i]);
            if j < buckets.len() {
                assert(after[j] == buckets[j]);
            }
        } else {
            assert(after[i].0 == buckets[i].0);
            assert(after[j].0 == buckets[j].0);
        }
    }
}

/// Binding a service binds it once.
pub proof fn lemma_bind_distinct(pending: Seq<(Seq<char>, u16)>, service: Seq<char>, port: u16)
    requires
        distinct_names(pending),
    ensures
        distinct_names(bind(pending, service, port)),
{
    lemma_binding_position(pending, service);
    let after = bind(pending, service, port);
    let k = binding_position(pending, service);
    assert forall|i: int, j: int| 0 <= i < j < after.len() implies (#[trigger] after[i]).0 != (
    #[trigger] after[j]).0 by {
        if k >= pending.len() {
            assert(after[i] == pending[i]);
            if j < pending.len() {
                assert(after[j] == pending[j]);
            }
        } else {
            assert(after[i].0 == pending[i].0);
            assert(after[j].0 == pending[j].0);
        }
    }
}

/// Giving every process a set gives no name a second set, and touches no
/// set that was there.
pub proof fn lemma_ensured_distinct(sets: Seq<ProcessSetView>, processes: Seq<ProcessSpecView>)
    requires
        distinct_sets(sets),
        sets_unique(sets),
    ensures
        distinct_sets(ensured(sets, processes)),
        sets_unique(ensured(sets, processes)),
    decreases processes.len(),
{
    if processes.len() > 0 {
        lemma_ensured_distinct(sets, processes.drop_last());
        let before = ensured(sets, processes.drop_last());
        let after = ensured(sets, processes);
        lemma_set_position(before, processes.last().name);
        assert forall|i: int, j: int| 0 <= i < j < after.len() implies (#[trigger] after[i]).name
            != (#[trigger] after[j]).name by {
            assert(after[i] == before[i]);
            if j < before.len() {
                assert(after[j] == before[j]);
            }
        }
        assert forall|k: int| 0 <= k < after.len() implies versions_unique(
            (#[trigger] after[k]).running_versions,
        ) by {
            if k < before.len() {
                assert(after[k] == before[k]);
            }
        }
    }
}

/// Versions that are, each, one of the old versions but for status and
/// connection count, hold at most one port for a service as the old did.
proof fn lemma_same_ports_unique(
    before: Seq<(ProcessSpecView, EntryView)>,
    after: Seq<(ProcessSpecView, EntryView)>,
)
    requires
        versions_unique(before),
        forall|v: int|
            0 <= v < after.len() ==> exists|w: int|
                0 <= w < before.len() && (#[trigger] before[w]).1.port_allocations == (
                #[trigger] after[v]).1.port_allocations,
    ensures
        versions_unique(after),
{
    assert forall|v: int| 0 <= v < after.len() implies distinct_names(
        (#[trigger] after[v]).1.port_allocations,
    ) by {
        let w = choose|w: int|
            0 <= w < before.len() && (#[trigger] before[w]).1.port_allocations
                == after[v].1.port_allocations;
        assert(distinct_names(before[w].1.port_allocations));
    }
}

/// Every version that is left after exited ones were dropped was there before.
proof fn lemma_survivors_from(versions: Seq<(ProcessSpecView, EntryView)>)
    ensures
        forall|v: int|
            0 <= v < survivors(versions).len() ==> versions.contains(
                #[trigger] survivors(versions)[v],
            ),
    decreases versions.len(),
{
    reveal(Seq::filter);
    let keep = |v: (ProcessSpecView, EntryView)| survives(v);
    if versions.len() > 0 {
        let shorter = versions.drop_last();
        lemma_survivors_from(shorter);
        let rest = shorter.filter(keep);
        let after = survivors(versions);
        assert forall|v: int| 0 <= v < after.len() implies versions.contains(
            #[trigger] after[v],
        ) by {
            if v < rest.len() {
                assert(after[v] == rest[v]);
                assert(survivors(shorter)[v] == rest[v]);
                assert(shorter.contains(rest[v]));
                let w = choose|w: int| 0 <= w < shorter.len() && shorter[w] == rest[v];
                assert(versions[w] == shorter[w]);
            } else {
                assert(after[v] == versions[versions.len() - 1]);
            }
        }
    }
}

/// Replacing the versions of one set by versions that are unique keeps
/// the sets' names and their uniqueness.
proof fn lemma_with_versions_unique(
    s: StateView,
    set: int,
    versions: Seq<(ProcessSpecView, EntryView)>,
)
    requires
        unique(s),
        0 <= set < s.processes_by_name.len(),
        versions_unique(versions),
    ensures
        distinct_sets(s.with_versions(set, versions).processes_by_name),
        sets_unique(s.with_versions(set, versions).processes_by_name),
{
    let after = s.with_versions(set, versions).processes_by_name;
    assert forall|i: int, j: int| 0 <= i < j < after.len() implies (#[trigger] after[i]).name != (
    #[trigger] after[j]).name by {
        assert(after[i].name == s.processes_by_name[i].name);
        assert(after[j].name == s.processes_by_name[j].name);
    }
    assert forall|k: int| 0 <= k < after.len() implies versions_unique(
        (#[trigger] after[k]).running_versions,
    ) by {
        if k != set {
            assert(after[k] == s.processes_by_name[k]);
        }
    }
}

/// A change of one child's status keeps the invariant of names.
proof fn lemma_set_status_unique(s: StateView, set: int, entry: int, status: ProcessStatus)
    requires
        unique(s),
        0 <= set < s.processes_by_name.len(),
        0 <= entry < s.versions(set).len(),
    ensures
        distinct_sets(s.set_status(set, entry, status).processes_by_name),
        sets_unique(s.set_status(set, entry, status).processes_by_name),
{
    let versions = s.versions(set);
    let moved = versions.update(entry, (versions[entry].0, EntryView { status, ..versions[entry].1 }));
    assert(versions_unique(s.processes_by_name[set].running_versions));
    assert forall|v: int| 0 <= v < moved.len() implies exists|w: int|
        0 <= w < versions.len() && (#[trigger] versions[w]).1.port_allocations == (
        #[trigger] moved[v]).1.port_allocations by {
        assert(versions[v].1.port_allocations == moved[v].1.port_allocations);
    }
    lemma_same_ports_unique(versions, moved);
    let told = s.emit(crate::process::status_change(versions[entry].1.name, status));
    lemma_with_versions_unique(told, set, moved);
}

/// A move of the pass keeps the invariant of names.
pub proof fn law_move_keeps_unique(s: StateView, now: u64)
    requires
        s.cursor_wf(),
        s.cursor.internal(),
        unique(s),
    ensures
        unique(advance(s, now).0),
{
    let t = advance(s, now).0;
    match s.cursor {
        CursorView::Services { index } => {},
        CursorView::Ensure { set } => {},
        CursorView::Ports { set, receive } => {},
        CursorView::Counts { set } => {
            let versions = s.versions(set);
            let after = counted(versions, s.last_ipvs_state);
            assert(versions_unique(s.processes_by_name[set].running_versions));
            assert forall|v: int| 0 <= v < after.len() implies exists|w: int|
                0 <= w < versions.len() && (#[trigger] versions[w]).1.port_allocations == (
                #[trigger] after[v]).1.port_allocations by {
                assert(versions[v].1.port_allocations == after[v].1.port_allocations);
            }
            lemma_same_ports_unique(versions, after);
            lemma_with_versions_unique(s, set, after);
        },
        CursorView::Promote { set } => {
            let versions = s.versions(set);
            if versions.len() > 0 {
                let tail = versions.last();
                let key = crate::model::start_key(tail.1.name);
                lemma_gate_distinct(s.limiter, key, now, crate::limiter::START_INTERVAL);
                let asked = StateView {
                    limiter: gate_after(s.limiter, key, now, crate::limiter::START_INTERVAL),
                    ..s
                };
                lemma_set_status_unique(asked, set, versions.len() - 1, ProcessStatus::Running);
            }
        },
        CursorView::Demote { set, entry } => {
            let versions = s.versions(set);
            if entry < versions.len() {
                let key = crate::model::health_key(versions[entry].1.name);
                lemma_gate_distinct(s.limiter, key, now, crate::limiter::HEALTH_INTERVAL);
            }
        },
        CursorView::Sunset { set } => {
            let versions = s.versions(set);
            let after = sunset(versions).versions;
            lemma_sunset_walk(versions, versions.len() as int, false);
            assert(versions_unique(s.processes_by_name[set].running_versions));
            assert forall|v: int| 0 <= v < after.len() implies exists|w: int|
                0 <= w < versions.len() && (#[trigger] versions[w]).1.port_allocations == (
                #[trigger] after[v]).1.port_allocations by {
                assert(versions[v].1.port_allocations == after[v].1.port_allocations);
            }
            lemma_same_ports_unique(versions, after);
            lemma_with_versions_unique(s, set, after);
        },
        CursorView::Reap { set, entry } => {},
        CursorView::Collect { set } => {
            let versions = s.versions(set);
            let after = survivors(versions);
            lemma_survivors_from(versions);
            assert(versions_unique(s.processes_by_name[set].running_versions));
            assert forall|v: int| 0 <= v < after.len() implies exists|w: int|
                0 <= w < versions.len() && (#[trigger] versions[w]).1.port_allocations == (
                #[trigger] after[v]).1.port_allocations by {
                assert(versions.contains(after[v]));
                let w = choose|w: int| 0 <= w < versions.len() && versions[w] == after[v];
                assert(versions[w].1.port_allocations == after[v].1.port_allocations);
            }
            lemma_same_ports_unique(versions, after);
            lemma_with_versions_unique(s, set, after);
        },
        CursorView::Weights { set, entry, binding } => {},
        _ => {},
    }
}

/// Taking in an answer keeps the invariant of names.
pub proof fn law_answer_keeps_unique(s: StateView, event: EventView, now: u64, word: Seq<char>)
    requires
        s.cursor_wf(),
        unique(s),
    ensures
        unique(resume(s, event, now, word).0),
{
    let t = resume(s, event, now, word).0;
    match (s.cursor, event) {
        (CursorView::Idle, EventView::Tick) => {
            lemma_ensured_distinct(s.processes_by_name, s.target.processes);
        },
        (CursorView::AwaitService { index }, EventView::ServiceReset) => {
            let name = s.target.services[index].name;
            let after = s.processed_services.push(name);
            assert forall|i: int, j: int|
                0 <= i < after.len() && 0 <= j < after.len() && i != j implies after[i]
                != after[j] by {
                if i < s.processed_services.len() {
                    assert(after[i] == s.processed_services[i]);
                    assert(s.processed_services.contains(after[i]));
                }
                if j < s.processed_services.len() {
                    assert(after[j] == s.processed_services[j]);
                    assert(s.processed_services.contains(after[j]));
                }
            }
        },
        (CursorView::AwaitPort { set, receive }, EventView::PortTested { test }) => {
            if s.launching is Some {
                let spec = s.launching->0;
                match attempt(s.free, test) {
                    AllocationView::Allocated { port } => {
                        lemma_bind_distinct(s.pending_ports, spec.receives[receive], port);
                    },
                    _ => {},
                }
            }
        },
        (CursorView::AwaitSpawn { set }, EventView::Spawned { process, pid }) => {
            if s.launching is Some {
                let spec = s.launching->0;
                let entry = new_entry(process, pid, s.pending_ports, word, s.counter, now);
                let versions = s.versions(set);
                let after = versions.push((spec, entry));
                assert(versions_unique(s.processes_by_name[set].running_versions));
                assert forall|v: int| 0 <= v < after.len() implies distinct_names(
                    (#[trigger] after[v]).1.port_allocations,
                ) by {
                    if v < versions.len() {
                        assert(after[v] == versions[v]);
                    }
                }
                lemma_with_versions_unique(s, set, after);
            }
        },
        (CursorView::AwaitStart { set }, EventView::Probed { reply }) => {
            lemma_set_status_unique(s, set, s.versions(set).len() - 1, ProcessStatus::Running);
        },
        (CursorView::AwaitHealth { set, entry }, EventView::Probed { reply }) => {
            lemma_set_status_unique(s, set, entry, ProcessStatus::Unhealthy);
        },
        (CursorView::AwaitExit { set, entry }, EventView::Exited { code, approx_time }) => {
            lemma_set_status_unique(
                s,
                set,
                entry,
                ProcessStatus::Exited {
                    exit_status: crate::model::exit_status(code),
                    approx_time,
                },
            );
        },
        _ => {},
    }
}

/// A pass carried on up to its next request keeps the invariant of names.
proof fn lemma_run_unique(s: StateView, now: u64)
    requires
        s.wf(),
        s.cursor.internal(),
        unique(s),
    ensures
        unique(run(s, now).0),
    decreases rank_phase(s), rank_outer(s), rank_stage(s), rank_inner(s),
{
    let next = advance(s, now);
    lemma_advance_wf(s, now);
    law_move_keeps_unique(s, now);
    if next.1 is None {
        lemma_advance_internal(s, now);
        lemma_advance_rank(s, now);
        lemma_run_unique(next.0, now);
    }
}

/// Every step of a pass keeps the invariant of names.
pub proof fn law_tick_keeps_unique(s: StateView, event: EventView, now: u64, word: Seq<char>)
    requires
        s.wf(),
        unique(s),
    ensures
        unique(tick(s, event, now, word).0),
{
    let fresh = StateView { emitted: Seq::empty(), signals: Seq::empty(), ..s };
    lemma_resume_wf(fresh, event, now, word);
    law_answer_keeps_unique(fresh, event, now, word);
    let resumed = resume(fresh, event, now, word);
    if resumed.1 is None {
        lemma_resume_internal(fresh, event, now, word);
        lemma_run_unique(resumed.0, now);
    }
}

/// A supervisor that was just set up keeps nothing twice.
pub proof fn law_initial_state_unique(
    lo: u16,
    hi: u16,
    admin: u16,
    target_text: Seq<char>,
    target: crate::config::HujingzhiTargetView,
    adjectives: Seq<Seq<char>>,
    nouns: Seq<Seq<char>>,
)
    ensures
        unique(
            crate::supervisor::initial_state(lo, hi, admin, target_text, target, adjectives, nouns),
        ),
{
}

/// No request of a client touches what is kept by name.
pub proof fn law_requests_keep_unique(
    s: StateView,
    request: crate::control::ClientRequestView,
    parsed: Option<crate::config::HujingzhiTargetView>,
)
    requires
        unique(s),
    ensures
        unique(crate::control::handled(s, request, parsed).0),
{
}

} // verus!

//! Which ports are handed out, and who holds them: every port a child
//! holds is handed out, and every port handed out is held by a child or
//! by the launch under way, for as long as no port is left behind.
use crate::config::ProcessSpecView;
use crate::events::ProcessStatus;
use crate::health::{bind, binding_position, lemma_binding_position};
use crate::invariants::{lemma_attempt_pool, lemma_released};
use crate::model::{advance, ensured, pending_set, resume, resume_port, resume_spawned};
use crate::ports::{allocated_after, AllocationView, attempt, BindTestView, free_after};
use crate::process::{
    counted, EntryView, lemma_sunset_walk, new_entry, ProcessSetView, sunset, survives, survivors,
};
use crate::state::{CursorView, EventView, StateView};
use vstd::prelude::*;

verus! {

/// Whether the child holds `port`.
pub open spec fn entry_holds(entry: EntryView, port: u16) -> bool {
    exists|b: int|
        0 <= b < entry.port_allocations.len() && (#[trigger] entry.port_allocations[b]).1 == port
}

/// Whether the child of some version holds `port`.
pub open spec fn versions_hold(versions: Seq<(ProcessSpecView, EntryView)>, port: u16) -> bool {
    exists|v: int| 0 <= v < versions.len() && entry_holds((#[trigger] versions[v]).1, port)
}

/// Whether some running child holds `port`.
pub open spec fn sets_hold(sets: Seq<ProcessSetView>, port: u16) -> bool {
    exists|k: int| 0 <= k < sets.len() && versions_hold((#[trigger] sets[k]).running_versions, port)
}

/// Whether `port` is held by a running child or by the launch under way.
pub open spec fn held(s: StateView, port: u16) -> bool {
    sets_hold(s.processes_by_name, port) || pending_set(s.pending_ports).contains(port)
}

/// Whether every port handed out is held.
pub open spec fn accounted(s: StateView) -> bool {
    forall|p: u16| s.allocated.contains(p) ==> held(s, p)
}

/// A port that is held is handed out.
pub proof fn law_held_is_allocated(s: StateView, port: u16)
    requires
        s.wf(),
        held(s, port),
    ensures
        s.allocated.contains(port),
{
    if sets_hold(s.processes_by_name, port) {
        let k = choose|k: int|
            0 <= k < s.processes_by_name.len() && versions_hold(
                (#[trigger] s.processes_by_name[k]).running_versions,
                port,
            );
        let versions = s.processes_by_name[k].running_versions;
        let v = choose|v: int|
            0 <= v < versions.len() && entry_holds((#[trigger] versions[v]).1, port);
        let b = choose|b: int|
            0 <= b < versions[v].1.port_allocations.len() && (
            #[trigger] versions[v].1.port_allocations[b]).1 == port;
        crate::laws::law_held_ports_are_allocated(s, k, v, b);
    } else {
        let i = choose|i: int|
            0 <= i < s.pending_ports.len() && (#[trigger] s.pending_ports[i]).1 == port;
        assert(s.allocated.contains(s.pending_ports[i].1));
    }
}

/// While every port handed out is held, a port is handed out exactly when
/// a running child, or the launch under way, holds it.
pub proof fn law_allocated_iff_held(s: StateView, port: u16)
    requires
        s.wf(),
        accounted(s),
    ensures
        s.allocated.contains(port) <==> held(s, port),
{
    if held(s, port) {
        law_held_is_allocated(s, port);
    }
}

/// A supervisor that was just set up has handed out no port.
pub proof fn law_initial_state_accounted(
    lo: u16,
    hi: u16,
    admin: u16,
    target_text: Seq<char>,
    target: crate::config::HujingzhiTargetView,
    adjectives: Seq<Seq<char>>,
    nouns: Seq<Seq<char>>,
)
    ensures
        accounted(
            crate::supervisor::initial_state(lo, hi, admin, target_text, target, adjectives, nouns),
        ),
{
}

/// Whether a move of the pass leaves no port behind: it starts no launch
/// over ports of an earlier one, and drops no exited child that holds a
/// port.
pub open spec fn move_keeps_ports(s: StateView) -> bool {
    match s.cursor {
        CursorView::Ensure { .. } => s.pending_ports.len() == 0,
        CursorView::Collect { set } => forall|v: int|
            0 <= v < s.versions(set).len() && !survives(#[trigger] s.versions(set)[v])
                ==> s.versions(set)[v].1.port_allocations.len() == 0,
        _ => true,
    }
}

/// Whether taking in an answer leaves no port behind: a port that was
/// found free is not bound to a service the launch has bound already.
pub open spec fn answer_keeps_ports(s: StateView, event: EventView) -> bool {
    match (s.cursor, event) {
        (CursorView::AwaitPort { receive, .. }, EventView::PortTested { test }) => test is Free
            && s.launching is Some ==> binding_position(
            s.pending_ports,
            s.launching->0.receives[receive],
        ) == s.pending_ports.len(),
        _ => true,
    }
}

/// Replacing one set by one that holds what the old one held keeps `port` held.
proof fn lemma_update_holds(
    sets: Seq<ProcessSetView>,
    set: int,
    changed: ProcessSetView,
    port: u16,
)
    requires
        0 <= set < sets.len(),
        sets_hold(sets, port),
        versions_hold(sets[set].running_versions, port) ==> versions_hold(
            changed.running_versions,
            port,
        ),
    ensures
        sets_hold(sets.update(set, changed), port),
{
    let k = choose|k: int|
        0 <= k < sets.len() && versions_hold((#[trigger] sets[k]).running_versions, port);
    let after = sets.update(set, changed);
    if k == set {
        assert(versions_hold(after[set].running_versions, port));
    } else {
        assert(after[k] == sets[k]);
        assert(versions_hold(after[k].running_versions, port));
    }
}

/// Versions that keep their places and their ports hold what they held.
proof fn lemma_same_ports_hold(
    before: Seq<(ProcessSpecView, EntryView)>,
    after: Seq<(ProcessSpecView, EntryView)>,
    port: u16,
)
    requires
        after.len() >= before.len(),
        forall|v: int|
            0 <= v < before.len() ==> (#[trigger] after[v]).1.port_allocations
                == before[v].1.port_allocations,
        versions_hold(before, port),
    ensures
        versions_hold(after, port),
{
    let v = choose|v: int| 0 <= v < before.len() && entry_holds((#[trigger] before[v]).1, port);
    let b = choose|b: int|
        0 <= b < before[v].1.port_allocations.len() && (
        #[trigger] before[v].1.port_allocations[b]).1 == port;
    assert(after[v].1.port_allocations[b].1 == port);
    assert(entry_holds(after[v].1, port));
}

/// Dropping exited versions that hold no port keeps `port` held.
proof fn lemma_survivors_hold(versions: Seq<(ProcessSpecView, EntryView)>, port: u16)
    requires
        forall|v: int|
            0 <= v < versions.len() && !survives(#[trigger] versions[v])
                ==> versions[v].1.port_allocations.len() == 0,
        versions_hold(versions, port),
    ensures
        versions_hold(survivors(versions), port),
    decreases versions.len(),
{
    reveal(Seq::filter);
    let keep = |v: (ProcessSpecView, EntryView)| survives(v);
    let v = choose|v: int| 0 <= v < versions.len() && entry_holds((#[trigger] versions[v]).1, port);
    let shorter = versions.drop_last();
    let rest = shorter.filter(keep);
    let after = survivors(versions);
    assert(versions.last() == versions[versions.len() - 1]);
    if v == versions.len() - 1 {
        assert(survives(versions[v]));
        assert(after == rest.push(versions.last()));
        assert(after[rest.len() as int] == versions[v]);
        assert(entry_holds(after[rest.len() as int].1, port));
    } else {
        assert(shorter[v] == versions[v]);
        assert(versions_hold(shorter, port));
        assert forall|w: int| 0 <= w < shorter.len() && !survives(
            #[trigger] shorter[w],
        ) implies shorter[w].1.port_allocations.len() == 0 by {
            assert(shorter[w] == versions[w]);
        }
        lemma_survivors_hold(shorter, port);
        let w = choose|w: int| 0 <= w < rest.len() && entry_holds((#[trigger] rest[w]).1, port);
        assert(after[w] == rest[w]);
        assert(entry_holds(after[w].1, port));
    }
}

/// Giving every process a set keeps the sets that were there, and `port` held.
proof fn lemma_ensured_hold(sets: Seq<ProcessSetView>, processes: Seq<ProcessSpecView>, port: u16)
    requires
        sets_hold(sets, port),
    ensures
        sets_hold(ensured(sets, processes), port),
        ensured(sets, processes).len() >= sets.len(),
        forall|k: int| 0 <= k < sets.len() ==> (#[trigger] ensured(sets, processes)[k]) == sets[k],
    decreases processes.len(),
{
    if processes.len() > 0 {
        lemma_ensured_hold(sets, processes.drop_last(), port);
    }
    let k = choose|k: int|
        0 <= k < sets.len() && versions_hold((#[trigger] sets[k]).running_versions, port);
    let after = ensured(sets, processes);
    assert(after[k] == sets[k]);
    assert(versions_hold(after[k].running_versions, port));
}

/// A state with the same sets and pending ports, and no port handed out
/// that was not before, keeps every port accounted for.
proof fn lemma_same_holdings(s: StateView, t: StateView)
    requires
        accounted(s),
        t.processes_by_name == s.processes_by_name,
        t.pending_ports == s.pending_ports,
        t.allocated.subset_of(s.allocated),
    ensures
        accounted(t),
{
    assert forall|p: u16| t.allocated.contains(p) implies held(t, p) by {
        assert(s.allocated.contains(p));
        assert(held(s, p));
    }
}

/// Replacing the versions of one set by versions that hold what the old
/// ones held keeps every port accounted for.
proof fn lemma_with_versions_accounted(
    s: StateView,
    t: StateView,
    set: int,
    versions: Seq<(ProcessSpecView, EntryView)>,
)
    requires
        accounted(s),
        0 <= set < s.processes_by_name.len(),
        t.processes_by_name == s.with_versions(set, versions).processes_by_name,
        t.allocated == s.allocated,
        t.pending_ports == s.pending_ports,
        forall|p: u16| versions_hold(s.versions(set), p) ==> versions_hold(versions, p),
    ensures
        accounted(t),
{
    assert forall|p: u16| t.allocated.contains(p) implies held(t, p) by {
        assert(s.allocated.contains(p));
        assert(held(s, p));
        if sets_hold(s.processes_by_name, p) {
            lemma_update_holds(
                s.processes_by_name,
                set,
                ProcessSetView { running_versions: versions, ..s.processes_by_name[set] },
                p,
            );
        }
    }
}

/// Releasing the ports of a failed launch keeps every port accounted for.
proof fn lemma_launch_failed_accounted(
    s: StateView,
    set: int,
    name: Seq<char>,
    message: Seq<char>,
    allocating: bool,
)
    requires
        s.wf(),
        accounted(s),
    ensures
        accounted(s.launch_failed(set, name, message, allocating)),
{
    lemma_released_accounted(s, set, name, message, allocating);
}

/// The same, of a state of which only the pool's invariant is known.
proof fn lemma_released_accounted(
    s: StateView,
    set: int,
    name: Seq<char>,
    message: Seq<char>,
    allocating: bool,
)
    requires
        s.ports_wf(),
        accounted(s),
    ensures
        accounted(s.launch_failed(set, name, message, allocating)),
{
    let t = s.launch_failed(set, name, message, allocating);
    lemma_released(s.free, s.allocated, s.pending_ports);
    assert forall|p: u16| t.allocated.contains(p) implies held(t, p) by {
        assert(s.allocated.contains(p));
        assert(!pending_set(s.pending_ports).contains(p));
        assert(held(s, p));
    }
}

/// A move of the pass that leaves no port behind keeps every port handed
/// out held by a child or by the launch under way.
pub proof fn law_move_keeps_account(s: StateView, now: u64)
    requires
        s.wf(),
        s.cursor.internal(),
        accounted(s),
        move_keeps_ports(s),
    ensures
        accounted(advance(s, now).0),
{
    let t = advance(s, now).0;
    match s.cursor {
        CursorView::Services { index } => {
            lemma_same_holdings(s, t);
        },
        CursorView::Ensure { set } => {
            assert(t.pending_ports =~= s.pending_ports);
            lemma_same_holdings(s, t);
        },
        CursorView::Ports { set, receive } => {
            let spec = s.launching->0;
            lemma_launch_failed_accounted(
                s,
                set,
                spec.name,
                crate::ports::exhausted_message(),
                true,
            );
            lemma_launch_failed_accounted(
                s,
                set,
                spec.name,
                crate::model::empty_command_message(),
                false,
            );
            if t.allocated == s.allocated && t.pending_ports == s.pending_ports {
                lemma_same_holdings(s, t);
            }
        },
        CursorView::Counts { set } => {
            let versions = counted(s.versions(set), s.last_ipvs_state);
            assert forall|p: u16| versions_hold(s.versions(set), p) implies versions_hold(
                versions,
                p,
            ) by {
                lemma_same_ports_hold(s.versions(set), versions, p);
            }
            lemma_with_versions_accounted(s, t, set, versions);
        },
        CursorView::Promote { set } => {
            let versions = s.versions(set);
            if versions.len() > 0 {
                let last = versions.len() - 1;
                let moved = versions.update(
                    last,
                    (versions[last].0, EntryView { status: ProcessStatus::Running, ..versions[last].1 }),
                );
                assert forall|p: u16| versions_hold(versions, p) implies versions_hold(
                    moved,
                    p,
                ) by {
                    lemma_same_ports_hold(versions, moved, p);
                }
                if t.processes_by_name != s.processes_by_name {
                    lemma_with_versions_accounted(s, t, set, moved);
                } else {
                    lemma_same_holdings(s, t);
                }
            } else {
                lemma_same_holdings(s, t);
            }
        },
        CursorView::Demote { set, entry } => {
            lemma_same_holdings(s, t);
        },
        CursorView::Sunset { set } => {
            let versions = sunset(s.versions(set)).versions;
            lemma_sunset_walk(s.versions(set), s.versions(set).len() as int, false);
            assert forall|p: u16| versions_hold(s.versions(set), p) implies versions_hold(
                versions,
                p,
            ) by {
                lemma_same_ports_hold(s.versions(set), versions, p);
            }
            lemma_with_versions_accounted(s, t, set, versions);
        },
        CursorView::Reap { set, entry } => {
            lemma_same_holdings(s, t);
        },
        CursorView::Collect { set } => {
            let versions = survivors(s.versions(set));
            assert forall|p: u16| versions_hold(s.versions(set), p) implies versions_hold(
                versions,
                p,
            ) by {
                lemma_survivors_hold(s.versions(set), p);
            }
            lemma_with_versions_accounted(s, t, set, versions);
        },
        CursorView::Weights { set, entry, binding } => {
            lemma_same_holdings(s, t);
        },
        _ => {},
    }
}

/// A change of one child's status keeps every port accounted for.
proof fn lemma_set_status_accounted(s: StateView, set: int, entry: int, status: ProcessStatus)
    requires
        accounted(s),
        0 <= set < s.processes_by_name.len(),
        0 <= entry < s.versions(set).len(),
    ensures
        accounted(s.set_status(set, entry, status)),
{
    let versions = s.versions(set);
    let moved = versions.update(entry, (versions[entry].0, EntryView { status, ..versions[entry].1 }));
    assert forall|p: u16| versions_hold(versions, p) implies versions_hold(moved, p) by {
        lemma_same_ports_hold(versions, moved, p);
    }
    lemma_with_versions_accounted(s, s.set_status(set, entry, status), set, moved);
}

/// Taking in an answer that leaves no port behind keeps every port handed
/// out held by a child or by the launch under way.
pub proof fn law_answer_keeps_account(s: StateView, event: EventView, now: u64, word: Seq<char>)
    requires
        s.wf(),
        accounted(s),
        answer_keeps_ports(s, event),
    ensures
        accounted(resume(s, event, now, word).0),
{
    let t = resume(s, event, now, word).0;
    let same = t.processes_by_name == s.processes_by_name && t.pending_ports == s.pending_ports
        && t.allocated == s.allocated;
    if same {
        lemma_same_holdings(s, t);
    } else {
        match (s.cursor, event) {
            (CursorView::Idle, EventView::Tick) => {
                assert forall|p: u16| t.allocated.contains(p) implies held(t, p) by {
                    assert(s.allocated.contains(p));
                    assert(held(s, p));
                    if sets_hold(s.processes_by_name, p) {
                        lemma_ensured_hold(s.processes_by_name, s.target.processes, p);
                    }
                }
            },
            (CursorView::AwaitPort { set, receive }, EventView::PortTested { test }) => {
                let spec = s.launching->0;
                let tried = StateView {
                    free: free_after(s.free, test),
                    allocated: allocated_after(s.free, s.allocated, test),
                    log: crate::ports::log_after_attempt(s.free, s.log, test),
                    emitted: s.emitted + crate::ports::attempt_events(s.free, test),
                    ..s
                };
                lemma_attempt_pool(s.free, s.allocated, test);
                match attempt(s.free, test) {
                    AllocationView::Allocated { port } => {
                        let service = spec.receives[receive];
                        lemma_binding_position(s.pending_ports, service);
                        let bound = bind(s.pending_ports, service, port);
                        assert(bound == s.pending_ports.push((service, port)));
                        assert(t.pending_ports == bound);
                        assert(t.allocated == s.allocated.insert(port));
                        assert forall|p: u16| t.allocated.contains(p) implies held(t, p) by {
                            if p == port {
                                assert(bound[s.pending_ports.len() as int].1 == port);
                                assert(pending_set(bound).contains(p));
                            } else {
                                assert(s.allocated.contains(p));
                                assert(held(s, p));
                                if pending_set(s.pending_ports).contains(p) {
                                    let i = choose|i: int|
                                        0 <= i < s.pending_ports.len() && (
                                        #[trigger] s.pending_ports[i]).1 == p;
                                    assert(bound[i].1 == p);
                                    assert(pending_set(bound).contains(p));
                                }
                            }
                        }
                    },
                    AllocationView::Retry => {
                        assert(t.allocated == s.allocated);
                        assert(t.pending_ports == s.pending_ports);
                        lemma_same_holdings(s, t);
                    },
                    AllocationView::Exhausted => {
                        assert(tried.allocated == s.allocated);
                        lemma_same_holdings(s, tried);
                        assert(tried.ports_wf()) by {
                            crate::invariants::lemma_ports_in_grow(
                                s.processes_by_name,
                                s.allocated.difference(pending_set(s.pending_ports)),
                                tried.allocated.difference(pending_set(tried.pending_ports)),
                            );
                        }
                        lemma_released_accounted(
                            tried,
                            set,
                            spec.name,
                            crate::ports::exhausted_message(),
                            true,
                        );
                    },
                    AllocationView::Failed { message } => {
                        assert(tried.allocated == s.allocated);
                        lemma_same_holdings(s, tried);
                        assert(tried.ports_wf()) by {
                            crate::invariants::lemma_ports_in_grow(
                                s.processes_by_name,
                                s.allocated.difference(pending_set(s.pending_ports)),
                                tried.allocated.difference(pending_set(tried.pending_ports)),
                            );
                        }
                        lemma_released_accounted(tried, set, spec.name, message, true);
                    },
                }
            },
            (CursorView::AwaitSpawn { set }, EventView::Spawned { process, pid }) => {
                let spec = s.launching->0;
                let entry = new_entry(process, pid, s.pending_ports, word, s.counter, now);
                let versions = s.versions(set).push((spec, entry));
                let changed = ProcessSetView {
                    running_versions: versions,
                    ..s.processes_by_name[set]
                };
                assert(t.processes_by_name =~= s.processes_by_name.update(set, changed));
                assert forall|p: u16| t.allocated.contains(p) implies held(t, p) by {
                    assert(s.allocated.contains(p));
                    assert(held(s, p));
                    if sets_hold(s.processes_by_name, p) {
                        if versions_hold(s.versions(set), p) {
                            lemma_same_ports_hold(s.versions(set), versions, p);
                        }
                        lemma_update_holds(s.processes_by_name, set, changed, p);
                    } else {
                        let i = choose|i: int|
                            0 <= i < s.pending_ports.len() && (#[trigger] s.pending_ports[i]).1
                                == p;
                        assert(entry.port_allocations[i].1 == p);
                        assert(entry_holds(versions[s.versions(set).len() as int].1, p));
                        assert(versions_hold(versions, p));
                        assert(versions_hold(t.processes_by_name[set].running_versions, p));
                    }
                }
            },
            (CursorView::AwaitSpawn { set }, EventView::Failed { message }) => {
                lemma_launch_failed_accounted(s, set, s.launching->0.name, message, false);
            },
            (CursorView::AwaitStart { set }, EventView::Probed { reply }) => {
                let last = s.versions(set).len() - 1;
                lemma_set_status_accounted(s, set, last, ProcessStatus::Running);
                lemma_same_holdings(s.set_status(set, last, ProcessStatus::Running), t);
            },
            (CursorView::AwaitHealth { set, entry }, EventView::Probed { reply }) => {
                lemma_set_status_accounted(s, set, entry, ProcessStatus::Unhealthy);
                lemma_same_holdings(s.set_status(set, entry, ProcessStatus::Unhealthy), t);
            },
            (CursorView::AwaitExit { set, entry }, EventView::Exited { code, approx_time }) => {
                let status = ProcessStatus::Exited {
                    exit_status: crate::model::exit_status(code),
                    approx_time,
                };
                lemma_set_status_accounted(s, set, entry, status);
                lemma_same_holdings(s.set_status(set, entry, status), t);
            },
            _ => {},
        }
    }
}

} // verus!

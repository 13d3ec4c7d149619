//! Every running child has a name of its own: names are built from a
//! counter that only counts up, so that, until the counter wraps, no two
//! children of one supervisor share a name.
use crate::config::ProcessSpecView;
use crate::events::ProcessStatus;
use crate::model::{advance, ensured, resume};
use crate::naming::{law_names_differ, unique_name_of};
use crate::process::{
    counted, lemma_sunset_walk, new_entry, sunset, survives, survivors, EntryView, ProcessSetView,
};
use crate::state::{CursorView, EventView, StateView};
use vstd::prelude::*;

verus! {

/// Whether `name` was built from a number of the counter below `bound`.
pub open spec fn named_below(name: Seq<char>, bound: usize) -> bool {
    exists|word: Seq<char>, counter: usize, pid: Option<u32>|
        counter < bound && name == #[trigger] unique_name_of(word, counter, pid)
}

/// Whether the child of some version is called `name`.
pub open spec fn versions_name(versions: Seq<(ProcessSpecView, EntryView)>, name: Seq<char>) -> bool {
    exists|v: int| 0 <= v < versions.len() && (#[trigger] versions[v]).1.name == name
}

/// Whether the versions' names differ from one another and were all built
/// from numbers of the counter below `bound`.
pub open spec fn versions_named(versions: Seq<(ProcessSpecView, EntryView)>, bound: usize) -> bool {
    &&& forall|v: int|
        0 <= v < versions.len() ==> named_below((#[trigger] versions[v]).1.name, bound)
    &&& forall|v: int, w: int|
        0 <= v < w < versions.len() ==> (#[trigger] versions[v]).1.name != (
        #[trigger] versions[w]).1.name
}

/// Whether no two running children share a name, and every name was built
/// from a number the counter has passed.
pub open spec fn children_named(s: StateView) -> bool {
    &&& forall|k: int|
        0 <= k < s.processes_by_name.len() ==> versions_named(
            (#[trigger] s.processes_by_name[k]).running_versions,
            s.counter,
        )
    &&& forall|k: int, m: int, name: Seq<char>|
        0 <= k < m < s.processes_by_name.len() ==> !(versions_name(
            (#[trigger] s.processes_by_name[k]).running_versions,
            name,
        ) && #[trigger] versions_name(s.processes_by_name[m].running_versions, name))
}

/// Whether `after` holds only names of `before`, at most once each where
/// `before` held them once.
pub open spec fn names_kept(
    before: Seq<(ProcessSpecView, EntryView)>,
    after: Seq<(ProcessSpecView, EntryView)>,
    bound: usize,
) -> bool {
    &&& versions_named(before, bound) ==> versions_named(after, bound)
    &&& forall|name: Seq<char>| versions_name(after, name) ==> versions_name(before, name)
}

/// Versions that keep their places and names keep their names.
proof fn lemma_same_names_kept(
    before: Seq<(ProcessSpecView, EntryView)>,
    after: Seq<(ProcessSpecView, EntryView)>,
    bound: usize,
)
    requires
        after.len() == before.len(),
        forall|v: int| 0 <= v < before.len() ==> (#[trigger] after[v]).1.name == before[v].1.name,
    ensures
        names_kept(before, after, bound),
{
    if versions_named(before, bound) {
        assert forall|v: int| 0 <= v < after.len() implies named_below(
            (#[trigger] after[v]).1.name,
            bound,
        ) by {
            assert(named_below(before[v].1.name, bound));
        }
        assert forall|v: int, w: int| 0 <= v < w < after.len() implies (#[trigger] after[v]).1.name
            != (#[trigger] after[w]).1.name by {
            assert(before[v].1.name != before[w].1.name);
        }
    }
    assert forall|name: Seq<char>| versions_name(after, name) implies versions_name(
        before,
        name,
    ) by {
        let v = choose|v: int| 0 <= v < after.len() && (#[trigger] after[v]).1.name == name;
        assert(before[v].1.name == name);
    }
}

/// Dropping exited versions keeps the names of the others.
proof fn lemma_survivors_names_kept(versions: Seq<(ProcessSpecView, EntryView)>, bound: usize)
    ensures
        names_kept(versions, survivors(versions), bound),
    decreases versions.len(),
{
    reveal(Seq::filter);
    let keep = |v: (ProcessSpecView, EntryView)| survives(v);
    let after = survivors(versions);
    if versions.len() > 0 {
        let shorter = versions.drop_last();
        let rest = shorter.filter(keep);
        let last = versions.last();
        assert(last == versions[versions.len() - 1]);
        lemma_survivors_names_kept(shorter, bound);
        assert(survivors(shorter) == rest);
        assert forall|name: Seq<char>| versions_name(after, name) implies versions_name(
            versions,
            name,
        ) by {
            let v = choose|v: int| 0 <= v < after.len() && (#[trigger] after[v]).1.name == name;
            if v < rest.len() {
                assert(after[v] == rest[v]);
                assert(versions_name(rest, name));
                let w = choose|w: int|
                    0 <= w < shorter.len() && (#[trigger] shorter[w]).1.name == name;
                assert(versions[w] == shorter[w]);
            } else {
                assert(after[v] == last);
            }
        }
        if versions_named(versions, bound) {
            assert(versions_named(shorter, bound)) by {
                assert forall|v: int| 0 <= v < shorter.len() implies named_below(
                    (#[trigger] shorter[v]).1.name,
                    bound,
                ) by {
                    assert(shorter[v] == versions[v]);
                }
                assert forall|v: int, w: int| 0 <= v < w < shorter.len() implies (
                #[trigger] shorter[v]).1.name != (#[trigger] shorter[w]).1.name by {
                    assert(shorter[v] == versions[v]);
                    assert(shorter[w] == versions[w]);
                }
            }
            assert(versions_named(rest, bound));
            if survives(last) {
                assert(after == rest.push(last));
                assert forall|v: int| 0 <= v < after.len() implies named_below(
                    (#[trigger] after[v]).1.name,
                    bound,
                ) by {
                    if v < rest.len() {
                        assert(after[v] == rest[v]);
                    }
                }
                assert forall|v: int, w: int| 0 <= v < w < after.len() implies (
                #[trigger] after[v]).1.name != (#[trigger] after[w]).1.name by {
                    assert(after[v] == rest[v]);
                    if w < rest.len() {
                        assert(after[w] == rest[w]);
                    } else {
                        assert(versions_name(rest, rest[v].1.name));
                        let u = choose|u: int|
                            0 <= u < shorter.len() && (#[trigger] shorter[u]).1.name
                                == rest[v].1.name;
                        assert(shorter[u] == versions[u]);
                        assert(versions[u].1.name != versions[versions.len() - 1].1.name);
                    }
                }
            }
        }
    }
}

/// Replacing the versions of one set by versions that keep its names
/// leaves every child with a name of its own.
proof fn lemma_with_versions_named(
    s: StateView,
    t: StateView,
    set: int,
    versions: Seq<(ProcessSpecView, EntryView)>,
)
    requires
        children_named(s),
        0 <= set < s.processes_by_name.len(),
        t.processes_by_name == s.with_versions(set, versions).processes_by_name,
        t.counter == s.counter,
        names_kept(s.versions(set), versions, s.counter),
    ensures
        children_named(t),
{
    let before = s.processes_by_name;
    let after = t.processes_by_name;
    assert(versions_named(before[set].running_versions, s.counter));
    assert forall|k: int| 0 <= k < after.len() implies versions_named(
        (#[trigger] after[k]).running_versions,
        t.counter,
    ) by {
        if k != set {
            assert(after[k] == before[k]);
        }
    }
    assert forall|k: int, m: int, name: Seq<char>| 0 <= k < m < after.len() implies !(versions_name(
        (#[trigger] after[k]).running_versions,
        name,
    ) && #[trigger] versions_name(after[m].running_versions, name)) by {
        if versions_name(after[k].running_versions, name) && versions_name(
            after[m].running_versions,
            name,
        ) {
            if k != set {
                assert(after[k] == before[k]);
            }
            if m != set {
                assert(after[m] == before[m]);
            }
            assert(versions_name(before[k].running_versions, name));
            assert(versions_name(before[m].running_versions, name));
        }
    }
}

/// A change of one child's status changes no name.
proof fn lemma_set_status_named(s: StateView, set: int, entry: int, status: ProcessStatus)
    requires
        children_named(s),
        0 <= set < s.processes_by_name.len(),
        0 <= entry < s.versions(set).len(),
    ensures
        children_named(s.set_status(set, entry, status)),
{
    let versions = s.versions(set);
    let moved = versions.update(entry, (versions[entry].0, EntryView { status, ..versions[entry].1 }));
    lemma_same_names_kept(versions, moved, s.counter);
    lemma_with_versions_named(s, s.set_status(set, entry, status), set, moved);
}

/// A state with the same sets and counter has the same names.
proof fn lemma_same_children(s: StateView, t: StateView)
    requires
        children_named(s),
        t.processes_by_name == s.processes_by_name,
        t.counter == s.counter,
    ensures
        children_named(t),
{
}

/// A move of the pass leaves every child with a name of its own.
pub proof fn law_move_keeps_names(s: StateView, now: u64)
    requires
        s.cursor_wf(),
        s.cursor.internal(),
        children_named(s),
    ensures
        children_named(advance(s, now).0),
{
    let t = advance(s, now).0;
    if t.processes_by_name == s.processes_by_name && t.counter == s.counter {
        lemma_same_children(s, t);
    } else {
        match s.cursor {
            CursorView::Counts { set } => {
                let versions = counted(s.versions(set), s.last_ipvs_state);
                lemma_same_names_kept(s.versions(set), versions, s.counter);
                lemma_with_versions_named(s, t, set, versions);
            },
            CursorView::Promote { set } => {
                let versions = s.versions(set);
                let last = versions.len() - 1;
                let moved = versions.update(
                    last,
                    (versions[last].0, EntryView { status: ProcessStatus::Running, ..versions[last].1 }),
                );
                lemma_same_names_kept(versions, moved, s.counter);
                lemma_with_versions_named(s, t, set, moved);
            },
            CursorView::Sunset { set } => {
                let versions = sunset(s.versions(set)).versions;
                lemma_sunset_walk(s.versions(set), s.versions(set).len() as int, false);
                assert forall|v: int| 0 <= v < s.versions(set).len() implies (
                #[trigger] versions[v]).1.name == s.versions(set)[v].1.name by {}
                lemma_same_names_kept(s.versions(set), versions, s.counter);
                lemma_with_versions_named(s, t, set, versions);
            },
            CursorView::Collect { set } => {
                let versions = survivors(s.versions(set));
                lemma_survivors_names_kept(s.versions(set), s.counter);
                lemma_with_versions_named(s, t, set, versions);
            },
            _ => {},
        }
    }
}

/// Giving every process a set keeps the sets that were there and adds only
/// sets without versions.
proof fn lemma_ensured_named(sets: Seq<ProcessSetView>, processes: Seq<ProcessSpecView>)
    ensures
        ensured(sets, processes).len() >= sets.len(),
        forall|k: int| 0 <= k < sets.len() ==> (#[trigger] ensured(sets, processes)[k]) == sets[k],
        forall|k: int|
            sets.len() <= k < ensured(sets, processes).len() ==> (#[trigger] ensured(
                sets,
                processes,
            )[k]).running_versions.len() == 0,
    decreases processes.len(),
{
    if processes.len() > 0 {
        lemma_ensured_named(sets, processes.drop_last());
    }
}

/// Taking in an answer leaves every child with a name of its own, as long
/// as the counter has not reached the end of its range.
pub proof fn law_answer_keeps_names(s: StateView, event: EventView, now: u64, word: Seq<char>)
    requires
        s.cursor_wf(),
        children_named(s),
        s.counter < usize::MAX,
    ensures
        children_named(resume(s, event, now, word).0),
{
    let t = resume(s, event, now, word).0;
    if t.processes_by_name == s.processes_by_name && t.counter == s.counter {
        lemma_same_children(s, t);
    } else {
        match (s.cursor, event) {
            (CursorView::Idle, EventView::Tick) => {
                let before = s.processes_by_name;
                let after = t.processes_by_name;
                lemma_ensured_named(before, s.target.processes);
                assert forall|k: int| 0 <= k < after.len() implies versions_named(
                    (#[trigger] after[k]).running_versions,
                    t.counter,
                ) by {
                    if k < before.len() {
                        assert(after[k] == before[k]);
                    }
                }
                assert forall|k: int, m: int, name: Seq<char>|
                    0 <= k < m < after.len() implies !(versions_name(
                    (#[trigger] after[k]).running_versions,
                    name,
                ) && #[trigger] versions_name(after[m].running_versions, name)) by {
                    if m < before.len() {
                        assert(after[k] == before[k]);
                        assert(after[m] == before[m]);
                    }
                }
            },
            (CursorView::AwaitSpawn { set }, EventView::Spawned { process, pid }) => {
                let spec = s.launching->0;
                let entry = new_entry(process, pid, s.pending_ports, word, s.counter, now);
                let before = s.processes_by_name;
                let after = t.processes_by_name;
                let old = s.versions(set);
                let versions = old.push((spec, entry));
                assert(after =~= before.update(
                    set,
                    ProcessSetView { running_versions: versions, ..before[set] },
                ));
                // a name built from an earlier number of the counter differs
                // from the new one
                assert forall|name: Seq<char>| named_below(name, s.counter) implies name
                    != entry.name by {
                    let (w, c, p) = choose|w: Seq<char>, c: usize, p: Option<u32>|
                        c < s.counter && name == #[trigger] unique_name_of(w, c, p);
                    law_names_differ(w, c, p, word, s.counter, pid);
                }
                assert(named_below(entry.name, t.counter)) by {
                    assert(entry.name == unique_name_of(word, s.counter, pid));
                }
                assert forall|k: int| 0 <= k < after.len() implies versions_named(
                    (#[trigger] after[k]).running_versions,
                    t.counter,
                ) by {
                    let now_there = after[k].running_versions;
                    let was_there = before[k].running_versions;
                    assert(versions_named(was_there, s.counter));
                    assert forall|v: int| 0 <= v < now_there.len() implies named_below(
                        (#[trigger] now_there[v]).1.name,
                        t.counter,
                    ) by {
                        if k == set && v == old.len() {
                        } else {
                            assert(now_there[v] == was_there[v]);
                            assert(named_below(was_there[v].1.name, s.counter));
                            let (w, c, p) = choose|w: Seq<char>, c: usize, p: Option<u32>|
                                c < s.counter && was_there[v].1.name == #[trigger] unique_name_of(
                                    w,
                                    c,
                                    p,
                                );
                            assert(c < t.counter);
                        }
                    }
                    assert forall|v: int, w: int| 0 <= v < w < now_there.len() implies (
                    #[trigger] now_there[v]).1.name != (#[trigger] now_there[w]).1.name by {
                        assert(now_there[v] == was_there[v]);
                        if k == set && w == old.len() {
                            assert(named_below(was_there[v].1.name, s.counter));
                        } else {
                            assert(now_there[w] == was_there[w]);
                        }
                    }
                }
                assert forall|k: int, m: int, name: Seq<char>|
                    0 <= k < m < after.len() implies !(versions_name(
                    (#[trigger] after[k]).running_versions,
                    name,
                ) && #[trigger] versions_name(after[m].running_versions, name)) by {
                    if versions_name(after[k].running_versions, name) && versions_name(
                        after[m].running_versions,
                        name,
                    ) {
                        let v = choose|v: int|
                            0 <= v < after[k].running_versions.len() && (
                            #[trigger] after[k].running_versions[v]).1.name == name;
                        let w = choose|w: int|
                            0 <= w < after[m].running_versions.len() && (
                            #[trigger] after[m].running_versions[w]).1.name == name;
                        assert(versions_named(before[k].running_versions, s.counter));
                        assert(versions_named(before[m].running_versions, s.counter));
                        if k == set && v == old.len() {
                            assert(after[m] == before[m]);
                            assert(named_below(before[m].running_versions[w].1.name, s.counter));
                        } else if m == set && w == old.len() {
                            assert(after[k] == before[k]);
                            assert(named_below(before[k].running_versions[v].1.name, s.counter));
                        } else {
                            assert(after[k].running_versions[v] == before[k].running_versions[v]);
                            assert(after[m].running_versions[w] == before[m].running_versions[w]);
                            assert(versions_name(before[k].running_versions, name));
                            assert(versions_name(before[m].running_versions, name));
                        }
                    }
                }
            },
            (CursorView::AwaitStart { set }, EventView::Probed { reply }) => {
                let last = s.versions(set).len() - 1;
                lemma_set_status_named(s, set, last, ProcessStatus::Running);
                lemma_same_children(s.set_status(set, last, ProcessStatus::Running), t);
            },
            (CursorView::AwaitHealth { set, entry }, EventView::Probed { reply }) => {
                lemma_set_status_named(s, set, entry, ProcessStatus::Unhealthy);
                lemma_same_children(s.set_status(set, entry, ProcessStatus::Unhealthy), t);
            },
            (CursorView::AwaitExit { set, entry }, EventView::Exited { code, approx_time }) => {
                let status = ProcessStatus::Exited {
                    exit_status: crate::model::exit_status(code),
                    approx_time,
                };
                lemma_set_status_named(s, set, entry, status);
                lemma_same_children(s.set_status(set, entry, status), t);
            },
            _ => {},
        }
    }
}

/// A supervisor that was just set up has no child to name.
pub proof fn law_initial_state_named(
    lo: u16,
    hi: u16,
    admin: u16,
    target_text: Seq<char>,
    target: crate::config::HujingzhiTargetView,
    adjectives: Seq<Seq<char>>,
    nouns: Seq<Seq<char>>,
)
    ensures
        children_named(
            crate::supervisor::initial_state(lo, hi, admin, target_text, target, adjectives, nouns),
        ),
{
}

} // verus!

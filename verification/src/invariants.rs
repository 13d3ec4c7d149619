//! Why the supervisor's invariant survives every step of a pass.
use crate::config::ProcessSpecView;
use crate::events::ProcessStatus;
use crate::health::{bind, binding_position, lemma_binding_position};
use crate::model::{
    ensured, entry_ports_in, pending_set, released_allocated, released_free, sets_ports_in,
    settled_upto, versions_ports_in,
};
use crate::ports::{allocated_after, BindTestView, free_after, pool_wf};
use crate::process::{
    counted, EntryView, lemma_sunset_walk, ProcessSetView, running_count, sunset, survives,
    survivors,
};
use vstd::prelude::*;

verus! {

/// Replacing one set by one whose children hold ports of `ports` keeps
/// every child's ports in `ports`.
pub proof fn lemma_update_ports_in(
    sets: Seq<ProcessSetView>,
    set: int,
    changed: ProcessSetView,
    ports: Set<u16>,
)
    requires
        0 <= set < sets.len(),
        sets_ports_in(sets, ports),
        versions_ports_in(changed.running_versions, ports),
    ensures
        sets_ports_in(sets.update(set, changed), ports),
{
    let after = sets.update(set, changed);
    assert forall|s: int| 0 <= s < after.len() implies versions_ports_in(
        (#[trigger] after[s]).running_versions,
        ports,
    ) by {
        if s != set {
            assert(after[s] == sets[s]);
        }
    }
}

/// Replacing a set that is not yet counted as settled keeps the settled
/// ones settled.
pub proof fn lemma_update_unsettled(
    sets: Seq<ProcessSetView>,
    set: int,
    changed: ProcessSetView,
    n: int,
)
    requires
        0 <= set < sets.len(),
        settled_upto(sets, n),
        n <= set,
    ensures
        settled_upto(sets.update(set, changed), n),
{
    let after = sets.update(set, changed);
    assert forall|k: int| 0 <= k < n && k < after.len() implies running_count(
        (#[trigger] after[k]).running_versions,
    ) <= 1 by {
        assert(after[k] == sets[k]);
    }
}

/// Replacing a set by one with at most one serving version keeps the
/// settled ones settled, and settles that set.
pub proof fn lemma_update_settled(
    sets: Seq<ProcessSetView>,
    set: int,
    changed: ProcessSetView,
    n: int,
)
    requires
        0 <= set < sets.len(),
        settled_upto(sets, n),
        running_count(changed.running_versions) <= 1,
    ensures
        settled_upto(sets.update(set, changed), n),
        n == set ==> settled_upto(sets.update(set, changed), n + 1),
{
    let after = sets.update(set, changed);
    assert forall|k: int| 0 <= k < n && k < after.len() implies running_count(
        (#[trigger] after[k]).running_versions,
    ) <= 1 by {
        if k != set {
            assert(after[k] == sets[k]);
        }
    }
    if n == set {
        assert forall|k: int| 0 <= k < n + 1 && k < after.len() implies running_count(
            (#[trigger] after[k]).running_versions,
        ) <= 1 by {
            if k != set {
                assert(after[k] == sets[k]);
            }
        }
    }
}

/// Counting connections changes no child's ports.
pub proof fn lemma_counted_ports(
    versions: Seq<(ProcessSpecView, EntryView)>,
    snapshot: Option<crate::ipvs::IpvsStateView>,
    ports: Set<u16>,
)
    requires
        versions_ports_in(versions, ports),
    ensures
        versions_ports_in(counted(versions, snapshot), ports),
{
    let after = counted(versions, snapshot);
    assert forall|v: int| 0 <= v < after.len() implies entry_ports_in(
        (#[trigger] after[v]).1,
        ports,
    ) by {
        assert(entry_ports_in(versions[v].1, ports));
        assert(after[v].1.port_allocations == versions[v].1.port_allocations);
    }
}

/// Sunsetting changes no child's ports.
pub proof fn lemma_sunset_ports(versions: Seq<(ProcessSpecView, EntryView)>, ports: Set<u16>)
    requires
        versions_ports_in(versions, ports),
    ensures
        versions_ports_in(sunset(versions).versions, ports),
{
    let after = sunset(versions).versions;
    lemma_sunset_walk(versions, versions.len() as int, false);
    assert forall|v: int| 0 <= v < after.len() implies entry_ports_in(
        (#[trigger] after[v]).1,
        ports,
    ) by {
        assert(entry_ports_in(versions[v].1, ports));
        assert(after[v].1.port_allocations == versions[v].1.port_allocations);
    }
}

/// Dropping exited versions leaves only children that were there before.
pub proof fn lemma_survivors_ports(versions: Seq<(ProcessSpecView, EntryView)>, ports: Set<u16>)
    requires
        versions_ports_in(versions, ports),
    ensures
        versions_ports_in(survivors(versions), ports),
    decreases versions.len(),
{
    reveal(Seq::filter);
    let keep = |v: (ProcessSpecView, EntryView)| survives(v);
    if versions.len() > 0 {
        let shorter = versions.drop_last();
        assert forall|v: int| 0 <= v < shorter.len() implies entry_ports_in(
            (#[trigger] shorter[v]).1,
            ports,
        ) by {
            assert(shorter[v] == versions[v]);
        }
        lemma_survivors_ports(shorter, ports);
        let rest = shorter.filter(keep);
        let after = survivors(versions);
        assert forall|v: int| 0 <= v < after.len() implies entry_ports_in(
            (#[trigger] after[v]).1,
            ports,
        ) by {
            if v < rest.len() {
                assert(after[v] == rest[v]);
            } else {
                assert(after[v] == versions.last());
                assert(versions.last() == versions[versions.len() - 1]);
            }
        }
    }
}

/// A change of one child's status changes no ports.
pub proof fn lemma_status_ports(
    versions: Seq<(ProcessSpecView, EntryView)>,
    entry: int,
    status: ProcessStatus,
    ports: Set<u16>,
)
    requires
        0 <= entry < versions.len(),
        versions_ports_in(versions, ports),
    ensures
        versions_ports_in(
            versions.update(
                entry,
                (versions[entry].0, EntryView { status, ..versions[entry].1 }),
            ),
            ports,
        ),
{
    let after = versions.update(
        entry,
        (versions[entry].0, EntryView { status, ..versions[entry].1 }),
    );
    assert forall|v: int| 0 <= v < after.len() implies entry_ports_in(
        (#[trigger] after[v]).1,
        ports,
    ) by {
        assert(entry_ports_in(versions[v].1, ports));
        assert(after[v].1.port_allocations == versions[v].1.port_allocations);
    }
}

/// A child that stops serving does not raise the number of serving versions.
pub proof fn lemma_status_not_running(
    versions: Seq<(ProcessSpecView, EntryView)>,
    entry: int,
    status: ProcessStatus,
)
    requires
        0 <= entry < versions.len(),
        status != ProcessStatus::Running,
    ensures
        running_count(
            versions.update(
                entry,
                (versions[entry].0, EntryView { status, ..versions[entry].1 }),
            ),
        ) <= running_count(versions),
    decreases versions.len(),
{
    let changed = (versions[entry].0, EntryView { status, ..versions[entry].1 });
    let after = versions.update(entry, changed);
    if entry == versions.len() - 1 {
        assert(after.drop_last() =~= versions.drop_last());
    } else {
        lemma_status_not_running(versions.drop_last(), entry, status);
        assert(after.drop_last() =~= versions.drop_last().update(entry, changed));
        assert(after.last() == versions.last());
    }
}

/// Giving every process a set adds only sets without versions.
pub proof fn lemma_ensured_ports(
    sets: Seq<ProcessSetView>,
    processes: Seq<ProcessSpecView>,
    ports: Set<u16>,
)
    requires
        sets_ports_in(sets, ports),
    ensures
        sets_ports_in(ensured(sets, processes), ports),
        ensured(sets, processes).len() >= sets.len(),
    decreases processes.len(),
{
    if processes.len() > 0 {
        lemma_ensured_ports(sets, processes.drop_last(), ports);
        let before = ensured(sets, processes.drop_last());
        let after = ensured(sets, processes);
        assert forall|s: int| 0 <= s < after.len() implies versions_ports_in(
            (#[trigger] after[s]).running_versions,
            ports,
        ) by {
            if s < before.len() {
                assert(after[s] == before[s]);
            }
        }
    }
}

/// What releasing the pending ports leaves: the handed-out set without
/// them, and a free queue that is still sound.
pub proof fn lemma_released(free: Seq<u16>, allocated: Set<u16>, pending: Seq<(Seq<char>, u16)>)
    requires
        pool_wf(free, allocated),
        forall|i: int| 0 <= i < pending.len() ==> allocated.contains((#[trigger] pending[i]).1),
        forall|i: int, j: int|
            0 <= i < j < pending.len() ==> (#[trigger] pending[i]).1 != (#[trigger] pending[j]).1,
    ensures
        released_allocated(allocated, pending) == allocated.difference(pending_set(pending)),
        pool_wf(released_free(free, pending), released_allocated(allocated, pending)),
        forall|p: u16|
            released_free(free, pending).contains(p) <==> free.contains(p) || pending_set(
                pending,
            ).contains(p),
    decreases pending.len(),
{
    if pending.len() == 0 {
        assert(released_allocated(allocated, pending) =~= allocated.difference(
            pending_set(pending),
        ));
    } else {
        let shorter = pending.drop_last();
        let port = pending.last().1;
        assert forall|i: int| 0 <= i < shorter.len() implies allocated.contains(
            (#[trigger] shorter[i]).1,
        ) by {
            assert(shorter[i] == pending[i]);
        }
        assert forall|i: int, j: int| 0 <= i < j < shorter.len() implies (#[trigger] shorter[i]).1
            != (#[trigger] shorter[j]).1 by {
            assert(shorter[i] == pending[i]);
            assert(shorter[j] == pending[j]);
        }
        lemma_released(free, allocated, shorter);
        let free1 = released_free(free, shorter);
        let alloc1 = released_allocated(allocated, shorter);
        let free2 = released_free(free, pending);
        let alloc2 = released_allocated(allocated, pending);
        assert(free2 == seq![port] + free1);
        assert(pending[pending.len() - 1] == pending.last());
        assert forall|p: u16| pending_set(pending).contains(p) <==> pending_set(shorter).contains(
            p,
        ) || p == port by {
            if pending_set(pending).contains(p) {
                let i = choose|i: int| 0 <= i < pending.len() && (#[trigger] pending[i]).1 == p;
                if i < shorter.len() {
                    assert(shorter[i] == pending[i]);
                }
            }
            if pending_set(shorter).contains(p) {
                let i = choose|i: int| 0 <= i < shorter.len() && (#[trigger] shorter[i]).1 == p;
                assert(shorter[i] == pending[i]);
            }
        }
        assert(!pending_set(shorter).contains(port)) by {
            if pending_set(shorter).contains(port) {
                let i = choose|i: int| 0 <= i < shorter.len() && (#[trigger] shorter[i]).1 == port;
                assert(shorter[i] == pending[i]);
                assert(pending[i].1 != pending[pending.len() - 1].1);
            }
        }
        assert(alloc2 =~= allocated.difference(pending_set(pending)));
        assert(alloc1.contains(port));
        assert(!free1.contains(port)) by {
            if free1.contains(port) {
                let i = choose|i: int| 0 <= i < free1.len() && free1[i] == port;
                assert(!alloc1.contains(free1[i]));
            }
        }
        assert forall|p: u16| free2.contains(p) <==> free.contains(p) || pending_set(
            pending,
        ).contains(p) by {
            if free2.contains(p) {
                let i = choose|i: int| 0 <= i < free2.len() && free2[i] == p;
                if i > 0 {
                    assert(free1[i - 1] == p);
                    assert(free1.contains(p));
                }
            }
            if free1.contains(p) {
                let i = choose|i: int| 0 <= i < free1.len() && free1[i] == p;
                assert(free2[i + 1] == p);
            }
            if p == port {
                assert(free2[0] == p);
            }
        }
        assert(free2.no_duplicates()) by {
            assert forall|i: int, j: int|
                0 <= i < free2.len() && 0 <= j < free2.len() && i != j implies free2[i]
                != free2[j] by {
                if i > 0 {
                    assert(free2[i] == free1[i - 1]);
                    assert(free1.contains(free1[i - 1]));
                }
                if j > 0 {
                    assert(free2[j] == free1[j - 1]);
                    assert(free1.contains(free1[j - 1]));
                }
            }
        }
        assert forall|i: int| 0 <= i < free2.len() implies !alloc2.contains(
            #[trigger] free2[i],
        ) by {
            if i > 0 {
                assert(free2[i] == free1[i - 1]);
            }
        }
    }
}

/// One allocation attempt leaves the pool sound, and hands out only a port
/// that was not handed out before.
pub proof fn lemma_attempt_pool(free: Seq<u16>, allocated: Set<u16>, test: BindTestView)
    requires
        pool_wf(free, allocated),
    ensures
        pool_wf(free_after(free, test), allocated_after(free, allocated, test)),
        allocated.subset_of(allocated_after(free, allocated, test)),
        free.len() > 0 ==> !allocated.contains(free[0]),
{
    if free.len() > 0 {
        let rest = free.drop_first();
        assert forall|i: int| 0 <= i < rest.len() implies rest[i] == free[i + 1] by {}
        match test {
            BindTestView::InUse => {
                let rotated = rest.push(free[0]);
                assert(rotated.no_duplicates()) by {
                    assert forall|i: int, j: int|
                        0 <= i < rotated.len() && 0 <= j < rotated.len() && i
                            != j implies rotated[i] != rotated[j] by {
                        if i < rest.len() {
                            assert(rotated[i] == free[i + 1]);
                        }
                        if j < rest.len() {
                            assert(rotated[j] == free[j + 1]);
                        }
                    }
                }
                assert forall|i: int| 0 <= i < rotated.len() implies !allocated.contains(
                    #[trigger] rotated[i],
                ) by {
                    if i < rest.len() {
                        assert(rotated[i] == free[i + 1]);
                    }
                }
            },
            _ => {
                assert(rest.no_duplicates()) by {
                    assert forall|i: int, j: int|
                        0 <= i < rest.len() && 0 <= j < rest.len() && i != j implies rest[i]
                        != rest[j] by {
                        assert(rest[i] == free[i + 1]);
                        assert(rest[j] == free[j + 1]);
                    }
                }
                assert forall|i: int| 0 <= i < rest.len() implies !allocated_after(
                    free,
                    allocated,
                    test,
                ).contains(#[trigger] rest[i]) by {
                    assert(rest[i] == free[i + 1]);
                }
            },
        }
    }
}

/// Binding one more port that was not handed out before keeps the pending
/// ports handed out and different from one another, and adds no port but
/// the new one.
pub proof fn lemma_bind_pending(
    pending: Seq<(Seq<char>, u16)>,
    allocated: Set<u16>,
    service: Seq<char>,
    port: u16,
)
    requires
        forall|i: int| 0 <= i < pending.len() ==> allocated.contains((#[trigger] pending[i]).1),
        forall|i: int, j: int|
            0 <= i < j < pending.len() ==> (#[trigger] pending[i]).1 != (#[trigger] pending[j]).1,
        !allocated.contains(port),
    ensures
        forall|i: int|
            0 <= i < bind(pending, service, port).len() ==> allocated.insert(port).contains(
                (#[trigger] bind(pending, service, port)[i]).1,
            ),
        forall|i: int, j: int|
            0 <= i < j < bind(pending, service, port).len() ==> (#[trigger] bind(
                pending,
                service,
                port,
            )[i]).1 != (#[trigger] bind(pending, service, port)[j]).1,
        forall|p: u16|
            pending_set(bind(pending, service, port)).contains(p) ==> p == port || pending_set(
                pending,
            ).contains(p),
{
    let after = bind(pending, service, port);
    let k = binding_position(pending, service);
    lemma_binding_position(pending, service);
    if k < pending.len() {
        assert(after == pending.update(k, (service, port)));
    } else {
        assert(after == pending.push((service, port)));
    }
    assert forall|i: int| 0 <= i < after.len() implies (#[trigger] after[i]).1 == port || (i
        < pending.len() && after[i] == pending[i]) by {}
    assert forall|i: int| 0 <= i < after.len() implies allocated.insert(port).contains(
        (#[trigger] after[i]).1,
    ) by {
        if after[i].1 != port {
            assert(after[i] == pending[i]);
        }
    }
    assert forall|i: int, j: int| 0 <= i < j < after.len() implies (#[trigger] after[i]).1 != (
    #[trigger] after[j]).1 by {
        if k < pending.len() {
            if i != k {
                assert(after[i] == pending[i]);
            }
            if j != k {
                assert(after[j] == pending[j]);
            }
        } else {
            assert(after[i] == pending[i]);
            if j < pending.len() {
                assert(after[j] == pending[j]);
            }
        }
    }
    assert forall|p: u16| pending_set(after).contains(p) implies p == port || pending_set(
        pending,
    ).contains(p) by {
        let i = choose|i: int| 0 <= i < after.len() && (#[trigger] after[i]).1 == p;
        if p != port {
            assert(after[i] == pending[i]);
        }
    }
}

/// A child whose ports lie in one set of ports has them in every larger one.
pub proof fn lemma_ports_in_grow(
    sets: Seq<ProcessSetView>,
    smaller: Set<u16>,
    larger: Set<u16>,
)
    requires
        sets_ports_in(sets, smaller),
        smaller.subset_of(larger),
    ensures
        sets_ports_in(sets, larger),
{
    assert forall|s: int| 0 <= s < sets.len() implies versions_ports_in(
        (#[trigger] sets[s]).running_versions,
        larger,
    ) by {
        let versions = sets[s].running_versions;
        assert(versions_ports_in(versions, smaller));
        assert forall|v: int| 0 <= v < versions.len() implies entry_ports_in(
            (#[trigger] versions[v]).1,
            larger,
        ) by {
            assert(entry_ports_in(versions[v].1, smaller));
        }
    }
}

/// Adding a version whose child holds ports of `ports` keeps every child's
/// ports in `ports`.
pub proof fn lemma_push_ports(
    versions: Seq<(ProcessSpecView, EntryView)>,
    added: (ProcessSpecView, EntryView),
    ports: Set<u16>,
)
    requires
        versions_ports_in(versions, ports),
        entry_ports_in(added.1, ports),
    ensures
        versions_ports_in(versions.push(added), ports),
{
    let after = versions.push(added);
    assert forall|v: int| 0 <= v < after.len() implies entry_ports_in(
        (#[trigger] after[v]).1,
        ports,
    ) by {
        if v < versions.len() {
            assert(after[v] == versions[v]);
        }
    }
}

} // verus!

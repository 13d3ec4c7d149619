//! The pool of loopback ports: a queue of free ports and the set of ports
//! handed out. A port is handed out only after a bind test found it free.
use crate::events::{EventLog, log_event, LogEvent, LogEventView, record, retained};
use crate::text::{decimal, decimal_string};
use std::collections::HashSet;
use std::collections::VecDeque;
use vstd::prelude::*;
use vstd::std_specs::vecdeque::VecDequeAdditionalSpecFns;

verus! {

/// The pool's invariant: no port is queued twice, and no queued port is
/// handed out.
pub open spec fn pool_wf(free: Seq<u16>, allocated: Set<u16>) -> bool {
    &&& free.no_duplicates()
    &&& forall|i: int| 0 <= i < free.len() ==> !allocated.contains(#[trigger] free[i])
}

/// The ports of `lo..hi` in ascending order, without `admin`.
pub open spec fn port_range(lo: int, hi: int, admin: u16) -> Seq<u16>
    decreases hi - lo,
{
    if lo >= hi {
        Seq::empty()
    } else if hi - 1 == admin {
        port_range(lo, hi - 1, admin)
    } else {
        port_range(lo, hi - 1, admin).push((hi - 1) as u16)
    }
}

/// What `port_range` holds: each port of `lo..hi` but `admin`, once, in
/// ascending order.
pub proof fn lemma_port_range(lo: int, hi: int, admin: u16)
    requires
        0 <= lo,
        hi <= 65536,
    ensures
        forall|p: u16| port_range(lo, hi, admin).contains(p) <==> lo <= p < hi && p != admin,
        forall|i: int, j: int|
            0 <= i < j < port_range(lo, hi, admin).len() ==> port_range(lo, hi, admin)[i]
                < port_range(lo, hi, admin)[j],
        port_range(lo, hi, admin).no_duplicates(),
        port_range(lo, hi, admin).len() <= if hi > lo {
            hi - lo
        } else {
            0
        },
    decreases hi - lo,
{
    let r = port_range(lo, hi, admin);
    if lo < hi {
        let q = port_range(lo, hi - 1, admin);
        lemma_port_range(lo, hi - 1, admin);
        if hi - 1 == admin {
        } else {
            let last = (hi - 1) as u16;
            assert forall|p: u16| r.contains(p) <==> lo <= p < hi && p != admin by {
                if r.contains(p) {
                    let i = choose|i: int| 0 <= i < r.len() && r[i] == p;
                    if i < q.len() {
                        assert(q[i] == p);
                        assert(q.contains(p));
                    }
                }
                if lo <= p < hi && p != admin {
                    if p == last {
                        assert(r[q.len() as int] == p);
                    } else {
                        assert(q.contains(p));
                        let i = choose|i: int| 0 <= i < q.len() && q[i] == p;
                        assert(r[i] == p);
                    }
                }
            }
            assert forall|i: int, j: int| 0 <= i < j < r.len() implies r[i] < r[j] by {
                if j == q.len() {
                    assert(q[i] == r[i]);
                    assert(q.contains(r[i]));
                }
            }
        }
    }
}

/// A range that holds the admin port alone yields no port at all.
pub proof fn lemma_admin_only_range_is_empty(admin: u16)
    ensures
        port_range(admin as int, admin as int + 1, admin) == Seq::<u16>::empty(),
{
    assert(port_range(admin as int, admin as int, admin) == Seq::<u16>::empty());
}

/// The warning recorded when the range includes the admin port.
pub open spec fn admin_skipped(admin: u16) -> LogEventView {
    LogEventView::Warning {
        msg: "Loopback port range includes the admin port "@ + decimal(admin as nat)
            + ", skipping it"@,
    }
}

/// The log after a pool over `lo..hi` was set up: one warning if the admin
/// port lay in the range.
pub open spec fn log_after_range(log: Seq<LogEventView>, lo: u16, hi: u16, admin: u16) -> Seq<
    LogEventView,
> {
    if lo <= admin < hi {
        retained(log.push(admin_skipped(admin)))
    } else {
        log
    }
}

/// The free queue of a fresh pool over `lo..hi`: every port of the range in
/// ascending order, the admin port left out with a warning.
pub fn free_ports(lo: u16, hi: u16, admin: u16, log: &mut EventLog) -> (free: VecDeque<u16>)
    ensures
        free@ == port_range(lo as int, hi as int, admin),
        final(log)@ == log_after_range(old(log)@, lo, hi, admin),
        pool_wf(free@, Set::empty()),
{
    let mut free: VecDeque<u16> = VecDeque::new();
    let mut i: u16 = lo;
    while i < hi
        invariant
            lo <= i <= hi || (i == lo && lo > hi),
            free@ == port_range(lo as int, i as int, admin),
            log@ == log_after_range(old(log)@, lo, i, admin),
        decreases hi - i,
    {
        if i == admin {
            let msg = "Loopback port range includes the admin port ".to_owned().concat(
                decimal_string(i as u64).as_str(),
            ).concat(", skipping it");
            log_event(log, LogEvent::Warning { msg });
        } else {
            free.push_back(i);
        }
        i += 1;
    }
    proof {
        if lo > hi {
            assert(port_range(lo as int, hi as int, admin) == Seq::<u16>::empty());
        }
        lemma_port_range(lo as int, hi as int, admin);
    }
    free
}

/// The outcome of a bind test on one port.
#[derive(Debug, PartialEq, Eq)]
pub enum BindTest {
    /// The port could be bound.
    Free,
    /// The address is in use.
    InUse,
    /// The test itself failed.
    Failed { message: String },
}

/// `BindTest` as contracts see it.
pub enum BindTestView {
    Free,
    InUse,
    Failed { message: Seq<char> },
}

impl View for BindTest {
    type V = BindTestView;

    open spec fn view(&self) -> BindTestView {
        match self {
            BindTest::Free => BindTestView::Free,
            BindTest::InUse => BindTestView::InUse,
            BindTest::Failed { message } => BindTestView::Failed { message: message@ },
        }
    }
}

/// What one allocation attempt came to.
#[derive(Debug, PartialEq, Eq)]
pub enum Allocation {
    /// The port at the front was free and is now handed out.
    Allocated { port: u16 },
    /// The port at the front was in use and went to the back: test the new
    /// front and try again.
    Retry,
    /// No free port is left.
    Exhausted,
    /// The bind test failed; the tested port has left the pool.
    Failed { message: String },
}

/// `Allocation` as contracts see it.
pub enum AllocationView {
    Allocated { port: u16 },
    Retry,
    Exhausted,
    Failed { message: Seq<char> },
}

impl View for Allocation {
    type V = AllocationView;

    open spec fn view(&self) -> AllocationView {
        match self {
            Allocation::Allocated { port } => AllocationView::Allocated { port: *port },
            Allocation::Retry => AllocationView::Retry,
            Allocation::Exhausted => AllocationView::Exhausted,
            Allocation::Failed { message } => AllocationView::Failed { message: message@ },
        }
    }
}

/// The message of port exhaustion.
pub open spec fn exhausted_message() -> Seq<char> {
    "No more free loopback ports"@
}

/// The warning recorded when a port is found in use.
pub open spec fn in_use_warning(port: u16) -> LogEventView {
    LogEventView::Warning { msg: "Port "@ + decimal(port as nat) + " is in use, skipping"@ }
}

/// The free queue after one allocation attempt.
pub open spec fn free_after(free: Seq<u16>, test: BindTestView) -> Seq<u16> {
    if free.len() == 0 {
        free
    } else {
        match test {
            BindTestView::InUse => free.drop_first().push(free[0]),
            _ => free.drop_first(),
        }
    }
}

/// The handed-out set after one allocation attempt.
pub open spec fn allocated_after(free: Seq<u16>, allocated: Set<u16>, test: BindTestView) -> Set<
    u16,
> {
    if free.len() > 0 && test is Free {
        allocated.insert(free[0])
    } else {
        allocated
    }
}

/// The events that one allocation attempt records: a warning when the
/// front port is in use.
pub open spec fn attempt_events(free: Seq<u16>, test: BindTestView) -> Seq<LogEventView> {
    if free.len() > 0 && test is InUse {
        seq![in_use_warning(free[0])]
    } else {
        Seq::empty()
    }
}

/// The log after one allocation attempt.
pub open spec fn log_after_attempt(
    free: Seq<u16>,
    log: Seq<LogEventView>,
    test: BindTestView,
) -> Seq<LogEventView> {
    if free.len() > 0 && test is InUse {
        retained(log.push(in_use_warning(free[0])))
    } else {
        log
    }
}

/// What one allocation attempt reports.
pub open spec fn attempt(free: Seq<u16>, test: BindTestView) -> AllocationView {
    if free.len() == 0 {
        AllocationView::Exhausted
    } else {
        match test {
            BindTestView::Free => AllocationView::Allocated { port: free[0] },
            BindTestView::InUse => AllocationView::Retry,
            BindTestView::Failed { message } => AllocationView::Failed { message },
        }
    }
}

/// The port whose bind test the next allocation attempt needs: the front of
/// the free queue.
pub fn next_candidate(free_loopback_ports: &VecDeque<u16>) -> (port: Option<u16>)
    ensures
        port == (if free_loopback_ports@.len() > 0 {
            Some(free_loopback_ports@[0])
        } else {
            None
        }),
{
    if free_loopback_ports.len() > 0 {
        Some(free_loopback_ports[0])
    } else {
        None
    }
}

/// One allocation attempt, given the bind test of the front port. A free
/// port leaves the queue and is handed out; a port in use goes to the back
/// of the queue with a warning, which is also added to `emitted`; a failed
/// test drops the port; an empty queue is exhaustion, whatever the test says.
pub fn allocate_port(
    free_loopback_ports: &mut VecDeque<u16>,
    allocated_ports: &mut HashSet<u16>,
    test: BindTest,
    log: &mut EventLog,
    emitted: &mut Vec<LogEvent>,
) -> (outcome: Allocation)
    requires
        pool_wf(old(free_loopback_ports)@, old(allocated_ports)@),
    ensures
        outcome@ == attempt(old(free_loopback_ports)@, test@),
        final(free_loopback_ports)@ == free_after(old(free_loopback_ports)@, test@),
        final(allocated_ports)@ == allocated_after(
            old(free_loopback_ports)@,
            old(allocated_ports)@,
            test@,
        ),
        final(log)@ == log_after_attempt(old(free_loopback_ports)@, old(log)@, test@),
        final(emitted).deep_view() == old(emitted).deep_view() + attempt_events(
            old(free_loopback_ports)@,
            test@,
        ),
        pool_wf(final(free_loopback_ports)@, final(allocated_ports)@),
        outcome matches Allocation::Allocated { port } ==> !old(allocated_ports)@.contains(port),
{
    broadcast use vstd::std_specs::hash::group_hash_axioms;

    let ghost free = free_loopback_ports@;
    assert(emitted.deep_view() + Seq::<LogEventView>::empty() =~= emitted.deep_view());
    let port = match free_loopback_ports.pop_front() {
        None => {
            return Allocation::Exhausted;
        },
        Some(port) => port,
    };
    assert(free_loopback_ports@ =~= free.drop_first());
    assert(free.drop_first().no_duplicates()) by {
        assert forall|i: int, j: int|
            0 <= i < free.drop_first().len() && 0 <= j < free.drop_first().len() && i
                != j implies free.drop_first()[i] != free.drop_first()[j] by {
            assert(free.drop_first()[i] == free[i + 1]);
            assert(free.drop_first()[j] == free[j + 1]);
        }
    }
    assert forall|i: int| 0 <= i < free.drop_first().len() implies free.drop_first()[i]
        != port && !allocated_ports@.contains(#[trigger] free.drop_first()[i]) by {
        assert(free.drop_first()[i] == free[i + 1]);
    }
    match test {
        BindTest::Free => {
            assert(!allocated_ports@.contains(free[0]));
            allocated_ports.insert(port);
            Allocation::Allocated { port }
        },
        BindTest::InUse => {
            let msg = "Port ".to_owned().concat(decimal_string(port as u64).as_str()).concat(
                " is in use, skipping",
            );
            let ghost shown = emitted.deep_view();
            record(log, emitted, LogEvent::Warning { msg });
            assert(emitted.deep_view() =~= shown + seq![in_use_warning(port)]);
            free_loopback_ports.push_back(port);
            let ghost rotated = free.drop_first().push(port);
            assert(rotated.no_duplicates()) by {
                assert forall|i: int, j: int|
                    0 <= i < rotated.len() && 0 <= j < rotated.len() && i != j implies rotated[i]
                    != rotated[j] by {
                    if i < free.drop_first().len() {
                        assert(rotated[i] == free.drop_first()[i]);
                    }
                    if j < free.drop_first().len() {
                        assert(rotated[j] == free.drop_first()[j]);
                    }
                }
            }
            assert forall|i: int| 0 <= i < rotated.len() implies !allocated_ports@.contains(
                #[trigger] rotated[i],
            ) by {
                if i < free.drop_first().len() {
                    assert(rotated[i] == free.drop_first()[i]);
                } else {
                    assert(rotated[i] == free[0]);
                }
            }
            Allocation::Retry
        },
        BindTest::Failed { message } => Allocation::Failed { message },
    }
}

/// Returns a handed-out port to the front of the free queue, so that it is
/// the next to be reused.
pub fn release_port(
    free_loopback_ports: &mut VecDeque<u16>,
    allocated_ports: &mut HashSet<u16>,
    port: u16,
)
    requires
        pool_wf(old(free_loopback_ports)@, old(allocated_ports)@),
        old(allocated_ports)@.contains(port),
    ensures
        final(allocated_ports)@ == old(allocated_ports)@.remove(port),
        final(free_loopback_ports)@ == seq![port] + old(free_loopback_ports)@,
        pool_wf(final(free_loopback_ports)@, final(allocated_ports)@),
{
    broadcast use vstd::std_specs::hash::group_hash_axioms;

    let ghost free = free_loopback_ports@;
    allocated_ports.remove(&port);
    free_loopback_ports.push_front(port);
    let ghost next = seq![port] + free;
    assert(next.no_duplicates()) by {
        assert forall|i: int, j: int|
            0 <= i < next.len() && 0 <= j < next.len() && i != j implies next[i] != next[j] by {
            if i > 0 {
                assert(next[i] == free[i - 1]);
            }
            if j > 0 {
                assert(next[j] == free[j - 1]);
            }
        }
    }
    assert forall|i: int| 0 <= i < next.len() implies !allocated_ports@.contains(
        #[trigger] next[i],
    ) by {
        if i > 0 {
            assert(next[i] == free[i - 1]);
        }
    }
}

} // verus!

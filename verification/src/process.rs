//! Running children and the versions of one process name: connection
//! counts, the sunsetting of superseded versions, and the removal of
//! children that have exited.
use crate::config::{ProcessSpec, ProcessSpecView};
use crate::events::{
    EventLog, lemma_logged_concat, lemma_logged_one, LogEvent, LogEventView, logged, ProcessStatus,
    record, retained,
};
use crate::ipvs::{connections_on, IpvsState, IpvsStateView, lookup};
use crate::naming::{get_counter, next_count, unique_name, unique_name_of};
use vstd::prelude::*;

verus! {

/// One running child: its name, state, ports, and the handle under which
/// the embedding program keeps the child itself.
#[derive(Debug, PartialEq, Eq)]
pub struct RunningProcessEntry {
    pub status: ProcessStatus,
    pub approx_start: u64,
    pub approx_conn_count: i128,
    pub process: u64,
    pub pid: Option<u32>,
    pub name: String,
    pub port_allocations: Vec<(String, u16)>,
}

/// `RunningProcessEntry` as contracts see it.
pub struct EntryView {
    pub status: ProcessStatus,
    pub approx_start: u64,
    pub approx_conn_count: i128,
    pub process: u64,
    pub pid: Option<u32>,
    pub name: Seq<char>,
    pub port_allocations: Seq<(Seq<char>, u16)>,
}

impl View for RunningProcessEntry {
    type V = EntryView;

    open spec fn view(&self) -> EntryView {
        EntryView {
            status: self.status,
            approx_start: self.approx_start,
            approx_conn_count: self.approx_conn_count,
            process: self.process,
            pid: self.pid,
            name: self.name@,
            port_allocations: self.port_allocations.deep_view(),
        }
    }
}

impl DeepView for RunningProcessEntry {
    type V = EntryView;

    open spec fn deep_view(&self) -> EntryView {
        self@
    }
}

/// The event that reports a change of status.
pub open spec fn status_change(name: Seq<char>, status: ProcessStatus) -> LogEventView {
    LogEventView::StatusChange { name, status }
}

/// A child that was just spawned: starting, with no connections counted.
pub open spec fn new_entry(
    process: u64,
    pid: Option<u32>,
    ports: Seq<(Seq<char>, u16)>,
    word: Seq<char>,
    counter: usize,
    now: u64,
) -> EntryView {
    EntryView {
        status: ProcessStatus::Starting,
        approx_start: now,
        approx_conn_count: 0,
        process,
        pid,
        name: unique_name_of(word, counter, pid),
        port_allocations: ports,
    }
}

impl RunningProcessEntry {
    /// Wraps a child that was just spawned, and names it from `word`, the
    /// next number of `counter` and its process id.
    pub fn new(
        process: u64,
        pid: Option<u32>,
        port_allocations: Vec<(String, u16)>,
        word: &str,
        counter: &mut usize,
        now: u64,
    ) -> (entry: Self)
        ensures
            entry@ == new_entry(
                process,
                pid,
                port_allocations.deep_view(),
                word@,
                *old(counter),
                now,
            ),
            *final(counter) == next_count(*old(counter)),
    {
        let drawn = get_counter(counter);
        let name = unique_name(word, drawn, pid);
        RunningProcessEntry {
            status: ProcessStatus::Starting,
            approx_start: now,
            approx_conn_count: 0,
            process,
            pid,
            name,
            port_allocations,
        }
    }

    /// Moves the child to `status` and records exactly one `StatusChange`
    /// event that carries the new status.
    pub fn update_status(
        &mut self,
        status: ProcessStatus,
        log: &mut EventLog,
        emitted: &mut Vec<LogEvent>,
    )
        ensures
            final(self)@ == (EntryView { status, ..old(self)@ }),
            final(log)@ == retained(old(log)@.push(status_change(old(self)@.name, status))),
            final(emitted).deep_view() == old(emitted).deep_view().push(
                status_change(old(self)@.name, status),
            ),
    {
        record(log, emitted, LogEvent::StatusChange { name: self.name.clone(), status });
        self.status = status;
    }
}

/// A spec and the child that was launched from it.
pub type Version = (ProcessSpec, RunningProcessEntry);

/// The versions of one process name, oldest first.
#[derive(Debug, PartialEq, Eq)]
pub struct ProcessSet {
    pub name: String,
    pub running_versions: Vec<(ProcessSpec, RunningProcessEntry)>,
}

/// `ProcessSet` as contracts see it.
pub struct ProcessSetView {
    pub name: Seq<char>,
    pub running_versions: Seq<(ProcessSpecView, EntryView)>,
}

impl View for ProcessSet {
    type V = ProcessSetView;

    open spec fn view(&self) -> ProcessSetView {
        ProcessSetView { name: self.name@, running_versions: self.running_versions.deep_view() }
    }
}

impl DeepView for ProcessSet {
    type V = ProcessSetView;

    open spec fn deep_view(&self) -> ProcessSetView {
        self@
    }
}

impl ProcessSet {
    /// The set of `name`, with no version yet.
    pub fn new(name: String) -> (set: Self)
        ensures
            set@ == (ProcessSetView { name: name@, running_versions: Seq::empty() }),
    {
        let set = ProcessSet { name, running_versions: Vec::new() };
        assert(set@.running_versions =~= Seq::empty());
        set
    }
}

/// The connections counted on the ports of one child: the sum, over its
/// ports, of the active connections of the real server on that port.
pub open spec fn connection_total(
    ports: Seq<(Seq<char>, u16)>,
    snapshot: Option<IpvsStateView>,
) -> int
    decreases ports.len(),
{
    if ports.len() == 0 {
        0
    } else {
        connection_total(ports.drop_last(), snapshot) + connections_on(snapshot, ports.last().1)
    }
}

/// A sum of connection counts lies within the range of its terms, taken
/// once for each port.
proof fn lemma_connection_total_bound(ports: Seq<(Seq<char>, u16)>, snapshot: Option<IpvsStateView>)
    ensures
        -0x8000_0000 * ports.len() <= connection_total(ports, snapshot) <= 0x8000_0000
            * ports.len(),
    decreases ports.len(),
{
    if ports.len() > 0 {
        lemma_connection_total_bound(ports.drop_last(), snapshot);
    }
}

/// The versions with each child's connection count brought up to date.
pub open spec fn counted(
    versions: Seq<(ProcessSpecView, EntryView)>,
    snapshot: Option<IpvsStateView>,
) -> Seq<(ProcessSpecView, EntryView)> {
    Seq::new(
        versions.len(),
        |i: int|
            (
                versions[i].0,
                EntryView {
                    approx_conn_count: connection_total(
                        versions[i].1.port_allocations,
                        snapshot,
                    ) as i128,
                    ..versions[i].1
                },
            ),
    )
}

/// Sums the active connections on `ports`.
pub fn count_connections(ports: &Vec<(String, u16)>, snapshot: &Option<IpvsState>) -> (total: i128)
    ensures
        total == connection_total(ports.deep_view(), snapshot.deep_view()),
{
    let ghost all = ports.deep_view();
    let mut total: i128 = 0;
    let mut i: usize = 0;
    while i < ports.len()
        invariant
            i <= ports.len(),
            all == ports.deep_view(),
            total == connection_total(all.take(i as int), snapshot.deep_view()),
            -0x8000_0000 * i <= total <= 0x8000_0000 * i,
        decreases ports.len() - i,
    {
        let found = lookup(snapshot, ports[i].1);
        let connections: i128 = match found {
            Some(info) => info.connections as i128,
            None => 0,
        };
        proof {
            assert(all.take(i as int + 1).drop_last() =~= all.take(i as int));
            assert(all.take(i as int + 1).last() == ports[i as int].deep_view());
        }
        total = total + connections;
        i += 1;
    }
    assert(all.take(i as int) =~= all);
    total
}

/// Brings the connection count of every version up to date.
pub fn update_connection_counts(
    versions: &mut Vec<(ProcessSpec, RunningProcessEntry)>,
    snapshot: &Option<IpvsState>,
)
    ensures
        final(versions).deep_view() == counted(old(versions).deep_view(), snapshot.deep_view()),
{
    let ghost before = versions.deep_view();
    let mut i: usize = 0;
    while i < versions.len()
        invariant
            i <= versions.len(),
            versions.len() == before.len(),
            forall|k: int|
                0 <= k < i ==> (#[trigger] versions.deep_view()[k]) == counted(
                    before,
                    snapshot.deep_view(),
                )[k],
            forall|k: int| i <= k < versions.len() ==> (#[trigger] versions.deep_view()[k]) == before[k],
        decreases versions.len() - i,
    {
        let ghost prior = versions.deep_view();
        assert(prior[i as int] == before[i as int]);
        let total = count_connections(&versions[i].1.port_allocations, snapshot);
        versions[i].1.approx_conn_count = total;
        proof {
            assert forall|k: int| 0 <= k < versions.len() && k != i implies (
            #[trigger] versions.deep_view()[k]) == prior[k] by {}
        }
        i += 1;
    }
    assert(versions.deep_view() =~= counted(before, snapshot.deep_view()));
}

/// Whether a version's child is serving.
pub open spec fn is_running(version: (ProcessSpecView, EntryView)) -> bool {
    version.1.status == ProcessStatus::Running
}

/// The number of versions whose child is serving.
pub open spec fn running_count(versions: Seq<(ProcessSpecView, EntryView)>) -> nat
    decreases versions.len(),
{
    if versions.len() == 0 {
        0
    } else {
        running_count(versions.drop_last()) + if is_running(versions.last()) {
            1nat
        } else {
            0nat
        }
    }
}

/// A version whose child was told to stop in favour of a newer one.
pub open spec fn sunsetted(version: (ProcessSpecView, EntryView)) -> (ProcessSpecView, EntryView) {
    (version.0, EntryView { status: ProcessStatus::Sunsetting, ..version.1 })
}

/// The process to signal for a child, if it has a process id.
pub open spec fn signal_of(pid: Option<u32>) -> Seq<u32> {
    match pid {
        Some(p) => seq![p],
        None => Seq::empty(),
    }
}

/// What sunsetting does: the versions afterwards, the events recorded, and
/// the processes to send a termination signal, in that order.
pub struct SunsetView {
    pub versions: Seq<(ProcessSpecView, EntryView)>,
    pub events: Seq<LogEventView>,
    pub signals: Seq<u32>,
}

/// The walk from the newest version down to the oldest over the first `i`
/// versions. `seen` says whether a newer serving version was met. The first
/// serving version met stays; each later one is sunset.
pub open spec fn sunset_walk(
    versions: Seq<(ProcessSpecView, EntryView)>,
    i: int,
    seen: bool,
) -> SunsetView
    decreases i,
{
    if i <= 0 || i > versions.len() {
        SunsetView { versions, events: Seq::empty(), signals: Seq::empty() }
    } else if !is_running(versions[i - 1]) {
        sunset_walk(versions, i - 1, seen)
    } else if !seen {
        sunset_walk(versions, i - 1, true)
    } else {
        let rest = sunset_walk(versions.update(i - 1, sunsetted(versions[i - 1])), i - 1, true);
        SunsetView {
            versions: rest.versions,
            events: seq![status_change(versions[i - 1].1.name, ProcessStatus::Sunsetting)]
                + rest.events,
            signals: signal_of(versions[i - 1].1.pid) + rest.signals,
        }
    }
}

/// Sunsetting over all versions.
pub open spec fn sunset(versions: Seq<(ProcessSpecView, EntryView)>) -> SunsetView {
    sunset_walk(versions, versions.len() as int, false)
}

/// What the walk leaves: versions from `i` on are untouched; each earlier
/// one is itself or its sunsetted form; and among the first `i`, at most
/// one still serves, none if a newer serving version had been met.
pub proof fn lemma_sunset_walk(versions: Seq<(ProcessSpecView, EntryView)>, i: int, seen: bool)
    requires
        0 <= i <= versions.len(),
    ensures
        sunset_walk(versions, i, seen).versions.len() == versions.len(),
        forall|k: int|
            i <= k < versions.len() ==> (#[trigger] sunset_walk(versions, i, seen).versions[k])
                == versions[k],
        forall|k: int|
            0 <= k < i ==> (#[trigger] sunset_walk(versions, i, seen).versions[k]) == versions[k]
                || sunset_walk(versions, i, seen).versions[k] == sunsetted(versions[k]),
        running_count(sunset_walk(versions, i, seen).versions.take(i)) <= (if seen {
            0nat
        } else {
            1nat
        }),
    decreases i,
{
    let r = sunset_walk(versions, i, seen).versions;
    if i > 0 {
        if !is_running(versions[i - 1]) {
            lemma_sunset_walk(versions, i - 1, seen);
        } else if !seen {
            lemma_sunset_walk(versions, i - 1, true);
        } else {
            let changed = versions.update(i - 1, sunsetted(versions[i - 1]));
            lemma_sunset_walk(changed, i - 1, true);
            assert forall|k: int| 0 <= k < i implies (#[trigger] r[k]) == versions[k] || r[k]
                == sunsetted(versions[k]) by {
                if k < i - 1 {
                    assert(changed[k] == versions[k]);
                }
            }
        }
        assert(r.take(i).drop_last() =~= r.take(i - 1));
        assert(r.take(i).last() == r[i - 1]);
    } else {
        assert(r.take(0) =~= Seq::empty());
    }
}

/// After sunsetting, at most one version still serves.
pub proof fn lemma_sunset_leaves_one(versions: Seq<(ProcessSpecView, EntryView)>)
    ensures
        running_count(sunset(versions).versions) <= 1,
        sunset(versions).versions.len() == versions.len(),
{
    lemma_sunset_walk(versions, versions.len() as int, false);
    assert(sunset(versions).versions.take(versions.len() as int) =~= sunset(versions).versions);
}

/// Sunsets every serving version that is older than the newest serving one:
/// each gets one `StatusChange` event and its process is listed in
/// `signals` for a termination signal.
pub fn sunset_older(
    versions: &mut Vec<(ProcessSpec, RunningProcessEntry)>,
    log: &mut EventLog,
    emitted: &mut Vec<LogEvent>,
    signals: &mut Vec<u32>,
)
    ensures
        final(versions).deep_view() == sunset(old(versions).deep_view()).versions,
        final(log)@ == logged(old(log)@, sunset(old(versions).deep_view()).events),
        final(emitted).deep_view() == old(emitted).deep_view() + sunset(
            old(versions).deep_view(),
        ).events,
        final(signals)@ == old(signals)@ + sunset(old(versions).deep_view()).signals,
        running_count(final(versions).deep_view()) <= 1,
{
    let ghost start = versions.deep_view();
    let ghost log0 = log@;
    let ghost emitted0 = emitted.deep_view();
    let ghost signals0 = signals@;
    let ghost events: Seq<LogEventView> = Seq::empty();
    let ghost sent: Seq<u32> = Seq::empty();
    let mut seen = false;
    let mut i: usize = versions.len();
    while i > 0
        invariant
            i <= versions.len(),
            versions.len() == start.len(),
            sunset(start).versions == sunset_walk(versions.deep_view(), i as int, seen).versions,
            sunset(start).events == events + sunset_walk(
                versions.deep_view(),
                i as int,
                seen,
            ).events,
            sunset(start).signals == sent + sunset_walk(
                versions.deep_view(),
                i as int,
                seen,
            ).signals,
            log@ == logged(log0, events),
            emitted.deep_view() == emitted0 + events,
            signals@ == signals0 + sent,
        decreases i,
    {
        let ghost current = versions.deep_view();
        let ghost rest_before = sunset_walk(current, i as int, seen);
        i -= 1;
        assert(current[i as int] == versions[i as int].deep_view());
        if versions[i].1.status.is_running() {
            if seen {
                let ghost name = versions[i as int].1.name@;
                let ghost event = status_change(name, ProcessStatus::Sunsetting);
                let ghost log_before = log@;
                versions[i].1.update_status(ProcessStatus::Sunsetting, log, emitted);
                match versions[i].1.pid {
                    Some(pid) => {
                        signals.push(pid);
                    },
                    None => {},
                }
                proof {
                    let changed = current.update(i as int, sunsetted(current[i as int]));
                    assert(versions.deep_view() =~= changed);
                    let rest = sunset_walk(changed, i as int, true);
                    assert(rest_before.events == seq![event] + rest.events);
                    assert(events + (seq![event] + rest.events) =~= (events + seq![event])
                        + rest.events);
                    assert(sent + (signal_of(current[i as int].1.pid) + rest.signals) =~= (sent
                        + signal_of(current[i as int].1.pid)) + rest.signals);
                    lemma_logged_concat(log0, events, seq![event]);
                    lemma_logged_one(logged(log0, events), event);
                    assert(emitted.deep_view() =~= emitted0 + (events + seq![event]));
                    assert(signals@ =~= signals0 + (sent + signal_of(current[i as int].1.pid)));
                    events = events + seq![event];
                    sent = sent + signal_of(current[i as int].1.pid);
                }
            } else {
                seen = true;
            }
        }
    }
    proof {
        assert(events + Seq::<LogEventView>::empty() =~= events);
        assert(sent + Seq::<u32>::empty() =~= sent);
        lemma_sunset_leaves_one(start);
    }
}

/// Whether a version's child is still there.
pub open spec fn survives(version: (ProcessSpecView, EntryView)) -> bool {
    !(version.1.status is Exited)
}

/// The versions whose child has not exited, in order.
pub open spec fn survivors(versions: Seq<(ProcessSpecView, EntryView)>) -> Seq<
    (ProcessSpecView, EntryView),
> {
    versions.filter(|v: (ProcessSpecView, EntryView)| survives(v))
}

/// Dropping exited versions drops no serving one.
pub proof fn lemma_survivors_keep_running(versions: Seq<(ProcessSpecView, EntryView)>)
    ensures
        running_count(survivors(versions)) == running_count(versions),
    decreases versions.len(),
{
    reveal(Seq::filter);
    let keep = |v: (ProcessSpecView, EntryView)| survives(v);
    if versions.len() > 0 {
        lemma_survivors_keep_running(versions.drop_last());
        let rest = versions.drop_last().filter(keep);
        if survives(versions.last()) {
            assert(survivors(versions) == rest.push(versions.last()));
            assert(survivors(versions).drop_last() =~= rest);
        } else {
            assert(survivors(versions) == rest);
        }
    }
}

/// Removes every version whose child has exited. Their ports stay handed out.
pub fn collect_exited(versions: &mut Vec<(ProcessSpec, RunningProcessEntry)>)
    ensures
        final(versions).deep_view() == survivors(old(versions).deep_view()),
{
    let ghost start = versions.deep_view();
    let ghost keep = |v: (ProcessSpecView, EntryView)| survives(v);
    let ghost done: int = 0;
    let mut i: usize = 0;
    while i < versions.len()
        invariant
            i <= versions.len(),
            0 <= done <= start.len(),
            keep == (|v: (ProcessSpecView, EntryView)| survives(v)),
            versions.deep_view().take(i as int) == start.take(done).filter(keep),
            versions.deep_view().skip(i as int) == start.skip(done),
            versions.len() - i == start.len() - done,
        decreases versions.len() - i,
    {
        let ghost current = versions.deep_view();
        proof {
            assert(current.skip(i as int)[0] == current[i as int]);
            assert(start.skip(done)[0] == start[done]);
            assert(start.take(done + 1).drop_last() =~= start.take(done));
            reveal(Seq::filter);
        }
        if versions[i].1.status.is_exited() {
            assert(current[i as int] == versions[i as int].deep_view());
            versions.remove(i);
            proof {
                assert(versions.deep_view() =~= current.remove(i as int));
                assert(versions.deep_view().take(i as int) =~= current.take(i as int));
                assert(versions.deep_view().skip(i as int) =~= current.skip(i as int).skip(1));
                assert(start.skip(done + 1) =~= start.skip(done).skip(1));
                assert(start.take(done + 1).filter(keep) == start.take(done).filter(keep));
                done = done + 1;
            }
        } else {
            assert(current[i as int] == versions[i as int].deep_view());
            proof {
                assert(start.take(done + 1).filter(keep) == start.take(done).filter(keep).push(
                    start[done],
                ));
                assert(current.take(i as int + 1) =~= current.take(i as int).push(
                    current[i as int],
                ));
                assert(current.skip(i as int + 1) =~= current.skip(i as int).skip(1));
                assert(start.skip(done + 1) =~= start.skip(done).skip(1));
                done = done + 1;
            }
            i += 1;
        }
    }
    proof {
        assert(versions.deep_view().take(i as int) =~= versions.deep_view());
        assert(start.take(done) =~= start);
    }
}

} // verus!

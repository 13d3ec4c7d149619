//! Process status, the structured events the supervisor records, and the
//! bounded log that keeps the most recent of them.
use crate::config::{ServiceSpec, ServiceSpecView};
use std::collections::VecDeque;
use vstd::prelude::*;
use vstd::std_specs::vecdeque::VecDequeAdditionalSpecFns;

verus! {

/// Life-cycle state of one supervised child.
#[derive(Clone, Copy, Debug, PartialEq, Eq, Structural)]
pub enum ProcessStatus {
    Starting,
    Running,
    Unhealthy,
    Sunsetting,
    Exited { exit_status: i32, approx_time: u64 },
}

impl ProcessStatus {
    /// The weight that a real server of a child in this state should carry:
    /// one while it runs, zero otherwise.
    pub open spec fn target_weight(self) -> int {
        if self == ProcessStatus::Running {
            1
        } else {
            0
        }
    }

    /// The weight that a real server of a child in this state should carry.
    pub fn weight(&self) -> (w: i32)
        ensures
            w == self.target_weight(),
    {
        match self {
            ProcessStatus::Running => 1,
            _ => 0,
        }
    }

    /// Whether the child is serving.
    pub fn is_running(&self) -> (r: bool)
        ensures
            r == (*self == ProcessStatus::Running),
    {
        match self {
            ProcessStatus::Running => true,
            _ => false,
        }
    }

    /// Whether the child has not yet passed its first probe.
    pub fn is_starting(&self) -> (r: bool)
        ensures
            r == (*self == ProcessStatus::Starting),
    {
        match self {
            ProcessStatus::Starting => true,
            _ => false,
        }
    }

    /// Whether the child is gone.
    pub fn is_exited(&self) -> (r: bool)
        ensures
            r == (*self is Exited),
    {
        match self {
            ProcessStatus::Exited { .. } => true,
            _ => false,
        }
    }
}

/// Copies a service-to-port map.
pub fn clone_ports(v: &Vec<(String, u16)>) -> (r: Vec<(String, u16)>)
    ensures
        r.deep_view() == v.deep_view(),
{
    let mut r: Vec<(String, u16)> = Vec::new();
    let mut i: usize = 0;
    while i < v.len()
        invariant
            i <= v.len(),
            r.deep_view() == v.deep_view().take(i as int),
        decreases v.len() - i,
    {
        let ghost before = r.deep_view();
        r.push((v[i].0.clone(), v[i].1));
        assert(r.deep_view() =~= before.push(v[i as int].deep_view()));
        assert(v.deep_view().take(i as int + 1) =~= v.deep_view().take(i as int).push(
            v[i as int].deep_view(),
        ));
        i += 1;
    }
    assert(v.deep_view().take(i as int) =~= v.deep_view());
    r
}

/// One entry of the supervisor's debug trail.
#[derive(Debug, PartialEq, Eq)]
pub enum LogEvent {
    Warning { msg: String },
    Error { msg: String },
    CreateIpvsService { spec: ServiceSpec },
    LaunchProcess { name: String, process_name: String, port_allocations: Vec<(String, u16)> },
    StatusChange { name: String, status: ProcessStatus },
    WeightChange { service: String, port: u16, weight: i32 },
}

/// `LogEvent` as contracts see it.
pub enum LogEventView {
    Warning { msg: Seq<char> },
    Error { msg: Seq<char> },
    CreateIpvsService { spec: ServiceSpecView },
    LaunchProcess {
        name: Seq<char>,
        process_name: Seq<char>,
        port_allocations: Seq<(Seq<char>, u16)>,
    },
    StatusChange { name: Seq<char>, status: ProcessStatus },
    WeightChange { service: Seq<char>, port: u16, weight: i32 },
}

impl View for LogEvent {
    type V = LogEventView;

    open spec fn view(&self) -> LogEventView {
        match self {
            LogEvent::Warning { msg } => LogEventView::Warning { msg: msg@ },
            LogEvent::Error { msg } => LogEventView::Error { msg: msg@ },
            LogEvent::CreateIpvsService { spec } => LogEventView::CreateIpvsService { spec: spec@ },
            LogEvent::LaunchProcess {
                name,
                process_name,
                port_allocations,
            } => LogEventView::LaunchProcess {
                name: name@,
                process_name: process_name@,
                port_allocations: port_allocations.deep_view(),
            },
            LogEvent::StatusChange { name, status } => LogEventView::StatusChange {
                name: name@,
                status: *status,
            },
            LogEvent::WeightChange { service, port, weight } => LogEventView::WeightChange {
                service: service@,
                port: *port,
                weight: *weight,
            },
        }
    }
}

impl DeepView for LogEvent {
    type V = LogEventView;

    open spec fn deep_view(&self) -> LogEventView {
        self@
    }
}

impl Clone for LogEvent {
    fn clone(&self) -> (r: Self)
        ensures
            r@ == self@,
    {
        match self {
            LogEvent::Warning { msg } => LogEvent::Warning { msg: msg.clone() },
            LogEvent::Error { msg } => LogEvent::Error { msg: msg.clone() },
            LogEvent::CreateIpvsService { spec } => LogEvent::CreateIpvsService {
                spec: spec.clone(),
            },
            LogEvent::LaunchProcess {
                name,
                process_name,
                port_allocations,
            } => LogEvent::LaunchProcess {
                name: name.clone(),
                process_name: process_name.clone(),
                port_allocations: clone_ports(port_allocations),
            },
            LogEvent::StatusChange { name, status } => LogEvent::StatusChange {
                name: name.clone(),
                status: *status,
            },
            LogEvent::WeightChange { service, port, weight } => LogEvent::WeightChange {
                service: service.clone(),
                port: *port,
                weight: *weight,
            },
        }
    }
}

/// The number of events the log keeps.
pub const LOG_MAX_SIZE: usize = 1000;

/// What remains of `events` once all but the newest `LOG_MAX_SIZE` are dropped.
pub open spec fn retained(events: Seq<LogEventView>) -> Seq<LogEventView> {
    if events.len() > LOG_MAX_SIZE {
        events.subrange(events.len() - LOG_MAX_SIZE, events.len() as int)
    } else {
        events
    }
}

/// A bounded trail of events, oldest first. It never holds more than
/// `LOG_MAX_SIZE` of them.
pub struct EventLog {
    events: VecDeque<LogEvent>,
}

impl View for EventLog {
    type V = Seq<LogEventView>;

    closed spec fn view(&self) -> Seq<LogEventView> {
        self.events.deep_view()
    }
}

impl EventLog {
    /// The log never holds more than `LOG_MAX_SIZE` events.
    #[verifier::type_invariant]
    spec fn bounded(self) -> bool {
        self.events@.len() <= LOG_MAX_SIZE
    }

    /// An empty log.
    pub fn new() -> (log: Self)
        ensures
            log@ == Seq::<LogEventView>::empty(),
    {
        let log = EventLog { events: VecDeque::new() };
        assert(log@ =~= Seq::<LogEventView>::empty());
        log
    }

    /// The number of events held, which never exceeds `LOG_MAX_SIZE`.
    pub fn len(&self) -> (n: usize)
        ensures
            n == self@.len(),
            n <= LOG_MAX_SIZE,
    {
        proof {
            use_type_invariant(self);
        }
        self.events.len()
    }
}

/// Appends `event`, dropping the oldest events so that at most
/// `LOG_MAX_SIZE` remain.
pub fn log_event(log: &mut EventLog, event: LogEvent)
    ensures
        final(log)@ == retained(old(log)@.push(event@)),
        final(log)@.len() <= LOG_MAX_SIZE,
{
    proof {
        use_type_invariant(&*log);
    }
    let mut events: VecDeque<LogEvent> = VecDeque::new();
    std::mem::swap(&mut log.events, &mut events);
    let ghost before = events.deep_view();
    while events.len() >= LOG_MAX_SIZE
        invariant
            events@.len() <= LOG_MAX_SIZE,
            before.len() <= LOG_MAX_SIZE,
            events.deep_view() == (if before.len() >= LOG_MAX_SIZE && events@.len() < before.len() {
                before.subrange(1, before.len() as int)
            } else {
                before
            }),
            events@.len() == before.len() || events@.len() == before.len() - 1,
        decreases events@.len(),
    {
        let ghost prior = events.deep_view();
        events.pop_front();
        assert(events.deep_view() =~= prior.subrange(1, prior.len() as int));
    }
    let ghost kept = events.deep_view();
    events.push_back(event);
    assert(events.deep_view() =~= kept.push(event@));
    assert(events.deep_view() =~= retained(before.push(event@)));
    log.events = events;
}

/// The log after each of `events` was appended in turn.
pub open spec fn logged(log: Seq<LogEventView>, events: Seq<LogEventView>) -> Seq<LogEventView>
    decreases events.len(),
{
    if events.len() == 0 {
        log
    } else {
        logged(retained(log.push(events[0])), events.drop_first())
    }
}

/// Appending two runs of events in turn is appending their concatenation.
pub proof fn lemma_logged_concat(
    log: Seq<LogEventView>,
    first: Seq<LogEventView>,
    second: Seq<LogEventView>,
)
    ensures
        logged(log, first + second) == logged(logged(log, first), second),
    decreases first.len(),
{
    if first.len() == 0 {
        assert(first + second =~= second);
    } else {
        assert((first + second).drop_first() =~= first.drop_first() + second);
        lemma_logged_concat(retained(log.push(first[0])), first.drop_first(), second);
    }
}

/// Appending one event.
pub proof fn lemma_logged_one(log: Seq<LogEventView>, event: LogEventView)
    ensures
        logged(log, seq![event]) == retained(log.push(event)),
{
    assert(seq![event].drop_first() =~= Seq::<LogEventView>::empty());
    assert(logged(retained(log.push(event)), Seq::<LogEventView>::empty()) == retained(
        log.push(event),
    ));
    assert(seq![event][0] == event);
}

/// A log of at most `LOG_MAX_SIZE` events stays so whatever is appended.
pub proof fn lemma_logged_bounded(log: Seq<LogEventView>, events: Seq<LogEventView>)
    requires
        log.len() <= LOG_MAX_SIZE,
    ensures
        logged(log, events).len() <= LOG_MAX_SIZE,
    decreases events.len(),
{
    if events.len() > 0 {
        lemma_logged_bounded(retained(log.push(events[0])), events.drop_first());
    }
}

/// Appends `event` to the log and to the list of events of the current step.
pub fn record(log: &mut EventLog, emitted: &mut Vec<LogEvent>, event: LogEvent)
    ensures
        final(log)@ == retained(old(log)@.push(event@)),
        final(emitted).deep_view() == old(emitted).deep_view().push(event@),
{
    let ghost before = emitted.deep_view();
    let copy = event.clone();
    log_event(log, event);
    emitted.push(copy);
    assert(emitted.deep_view() =~= before.push(event@));
}

/// A copy of every event held, oldest first.
pub fn get_entire_log(log: &EventLog) -> (events: Vec<LogEvent>)
    ensures
        events.deep_view() == log@,
        events.len() <= LOG_MAX_SIZE,
{
    proof {
        use_type_invariant(log);
    }
    let mut events: Vec<LogEvent> = Vec::new();
    let mut i: usize = 0;
    while i < log.events.len()
        invariant
            i <= log.events.len(),
            events.deep_view() == log.events.deep_view().take(i as int),
        decreases log.events.len() - i,
    {
        let ghost before = events.deep_view();
        events.push(log.events[i].clone());
        assert(events.deep_view() =~= before.push(log.events[i as int]@));
        assert(log.events.deep_view().take(i as int + 1) =~= log.events.deep_view().take(
            i as int,
        ).push(log.events[i as int]@));
        i += 1;
    }
    assert(log.events.deep_view().take(i as int) =~= log.events.deep_view());
    events
}

} // verus!

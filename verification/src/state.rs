//! The supervisor's state, and the vocabulary of one reconciliation pass:
//! where the pass stands, what it asks of its surroundings, and what they
//! answer.
use crate::config::{
    HujingzhiTarget, HujingzhiTargetView, ProcessSpec, ProcessSpecView, ServiceSpec,
    ServiceSpecView,
};
use crate::events::{EventLog, LogEvent, LogEventView};
use crate::health::{ProbeReply, ProbeReplyView};
use crate::ipvs::{IpvsState, IpvsStateView};
use crate::limiter::RateLimiter;
use crate::ports::{BindTest, BindTestView};
use crate::process::{ProcessSet, ProcessSetView};
use std::collections::HashSet;
use std::collections::VecDeque;
use vstd::prelude::*;

verus! {

/// Where a reconciliation pass stands. The `Await` positions wait for an
/// answer from outside; the others are worked through without one.
#[derive(Clone, Copy, Debug, PartialEq, Eq, Structural)]
pub enum Cursor {
    /// No pass is under way.
    Idle,
    /// The kernel's snapshot was asked for.
    AwaitSnapshot,
    /// Looking for the next service of the target that was never set up.
    Services { index: usize },
    /// The service at `index` is being set up.
    AwaitService { index: usize },
    /// Deciding whether the set needs a new version.
    Ensure { set: usize },
    /// Allocating a port for the service at `receive`, or spawning.
    Ports { set: usize, receive: usize },
    /// The front port of the pool is being tested.
    AwaitPort { set: usize, receive: usize },
    /// The child is being spawned.
    AwaitSpawn { set: usize },
    /// Bringing connection counts up to date.
    Counts { set: usize },
    /// Deciding whether to probe the newest version while it starts.
    Promote { set: usize },
    /// The newest version is being probed.
    AwaitStart { set: usize },
    /// Deciding whether to probe the serving version at `entry`.
    Demote { set: usize, entry: usize },
    /// The version at `entry` is being probed.
    AwaitHealth { set: usize, entry: usize },
    /// Sunsetting superseded versions.
    Sunset { set: usize },
    /// Checking whether the child at `entry` has exited.
    Reap { set: usize, entry: usize },
    /// The child at `entry` is being polled.
    AwaitExit { set: usize, entry: usize },
    /// Removing versions whose child has exited.
    Collect { set: usize },
    /// Comparing the weight of the port at `binding` with what it should be.
    Weights { set: usize, entry: usize, binding: usize },
    /// The weight of the port at `binding` is being changed.
    AwaitWeight { set: usize, entry: usize, binding: usize },
}

impl Cursor {
    /// Whether the pass can go on from here without an answer from outside.
    pub fn is_internal(&self) -> (r: bool)
        ensures
            r == self@.internal(),
    {
        match self {
            Cursor::Services { .. } => true,
            Cursor::Ensure { .. } => true,
            Cursor::Ports { .. } => true,
            Cursor::Counts { .. } => true,
            Cursor::Promote { .. } => true,
            Cursor::Demote { .. } => true,
            Cursor::Sunset { .. } => true,
            Cursor::Reap { .. } => true,
            Cursor::Collect { .. } => true,
            Cursor::Weights { .. } => true,
            _ => false,
        }
    }
}

/// A position of a pass, with its indices as mathematical integers.
pub enum CursorView {
    Idle,
    AwaitSnapshot,
    Services { index: int },
    AwaitService { index: int },
    Ensure { set: int },
    Ports { set: int, receive: int },
    AwaitPort { set: int, receive: int },
    AwaitSpawn { set: int },
    Counts { set: int },
    Promote { set: int },
    AwaitStart { set: int },
    Demote { set: int, entry: int },
    AwaitHealth { set: int, entry: int },
    Sunset { set: int },
    Reap { set: int, entry: int },
    AwaitExit { set: int, entry: int },
    Collect { set: int },
    Weights { set: int, entry: int, binding: int },
    AwaitWeight { set: int, entry: int, binding: int },
}

impl View for Cursor {
    type V = CursorView;

    open spec fn view(&self) -> CursorView {
        match self {
            Cursor::Idle => CursorView::Idle,
            Cursor::AwaitSnapshot => CursorView::AwaitSnapshot,
            Cursor::Services { index } => CursorView::Services { index: *index as int },
            Cursor::AwaitService { index } => CursorView::AwaitService { index: *index as int },
            Cursor::Ensure { set } => CursorView::Ensure { set: *set as int },
            Cursor::Ports { set, receive } => CursorView::Ports {
                set: *set as int,
                receive: *receive as int,
            },
            Cursor::AwaitPort { set, receive } => CursorView::AwaitPort {
                set: *set as int,
                receive: *receive as int,
            },
            Cursor::AwaitSpawn { set } => CursorView::AwaitSpawn { set: *set as int },
            Cursor::Counts { set } => CursorView::Counts { set: *set as int },
            Cursor::Promote { set } => CursorView::Promote { set: *set as int },
            Cursor::AwaitStart { set } => CursorView::AwaitStart { set: *set as int },
            Cursor::Demote { set, entry } => CursorView::Demote {
                set: *set as int,
                entry: *entry as int,
            },
            Cursor::AwaitHealth { set, entry } => CursorView::AwaitHealth {
                set: *set as int,
                entry: *entry as int,
            },
            Cursor::Sunset { set } => CursorView::Sunset { set: *set as int },
            Cursor::Reap { set, entry } => CursorView::Reap {
                set: *set as int,
                entry: *entry as int,
            },
            Cursor::AwaitExit { set, entry } => CursorView::AwaitExit {
                set: *set as int,
                entry: *entry as int,
            },
            Cursor::Collect { set } => CursorView::Collect { set: *set as int },
            Cursor::Weights { set, entry, binding } => CursorView::Weights {
                set: *set as int,
                entry: *entry as int,
                binding: *binding as int,
            },
            Cursor::AwaitWeight { set, entry, binding } => CursorView::AwaitWeight {
                set: *set as int,
                entry: *entry as int,
                binding: *binding as int,
            },
        }
    }
}

impl CursorView {
    /// Whether the pass can go on from here without an answer from outside.
    pub open spec fn internal(self) -> bool {
        match self {
            CursorView::Services { .. } => true,
            CursorView::Ensure { .. } => true,
            CursorView::Ports { .. } => true,
            CursorView::Counts { .. } => true,
            CursorView::Promote { .. } => true,
            CursorView::Demote { .. } => true,
            CursorView::Sunset { .. } => true,
            CursorView::Reap { .. } => true,
            CursorView::Collect { .. } => true,
            CursorView::Weights { .. } => true,
            _ => false,
        }
    }
}

/// Why a pass was given up.
#[derive(Debug, PartialEq, Eq)]
pub enum HousekeepingError {
    /// Something outside the supervisor failed.
    Adapter { message: String },
    /// A health check names a service the child holds no port for.
    NoPortForService { service: String },
    /// A child holds a port for a service the target does not name.
    ServiceNotFound { service: String },
    /// The answer does not fit what the pass was waiting for.
    UnexpectedEvent,
}

/// `HousekeepingError` as contracts see it.
pub enum HousekeepingErrorView {
    Adapter { message: Seq<char> },
    NoPortForService { service: Seq<char> },
    ServiceNotFound { service: Seq<char> },
    UnexpectedEvent,
}

impl View for HousekeepingError {
    type V = HousekeepingErrorView;

    open spec fn view(&self) -> HousekeepingErrorView {
        match self {
            HousekeepingError::Adapter { message } => HousekeepingErrorView::Adapter {
                message: message@,
            },
            HousekeepingError::NoPortForService {
                service,
            } => HousekeepingErrorView::NoPortForService { service: service@ },
            HousekeepingError::ServiceNotFound {
                service,
            } => HousekeepingErrorView::ServiceNotFound { service: service@ },
            HousekeepingError::UnexpectedEvent => HousekeepingErrorView::UnexpectedEvent,
        }
    }
}

impl DeepView for HousekeepingError {
    type V = HousekeepingErrorView;

    open spec fn deep_view(&self) -> HousekeepingErrorView {
        self@
    }
}

impl HousekeepingErrorView {
    /// The text of the error.
    pub open spec fn message(self) -> Seq<char> {
        match self {
            HousekeepingErrorView::Adapter { message } => message,
            HousekeepingErrorView::NoPortForService {
                service,
            } => "BUG: No port allocated for service "@ + service,
            HousekeepingErrorView::ServiceNotFound { service } => "BUG: Service "@ + service
                + " not found"@,
            HousekeepingErrorView::UnexpectedEvent => "Unexpected event"@,
        }
    }
}

impl HousekeepingError {
    /// The text of the error.
    pub fn message(&self) -> (s: String)
        ensures
            s@ == self@.message(),
    {
        match self {
            HousekeepingError::Adapter { message } => message.clone(),
            HousekeepingError::NoPortForService {
                service,
            } => "BUG: No port allocated for service ".to_owned().concat(service.as_str()),
            HousekeepingError::ServiceNotFound { service } => "BUG: Service ".to_owned().concat(
                service.as_str(),
            ).concat(" not found"),
            HousekeepingError::UnexpectedEvent => "Unexpected event".to_owned(),
        }
    }
}

/// What the surroundings tell a pass.
#[derive(Debug, PartialEq, Eq)]
pub enum Event {
    /// The housekeeping interval has passed: begin a pass.
    Tick,
    /// The kernel's snapshot.
    Snapshot { state: IpvsState },
    /// The service was deleted and created anew.
    ServiceReset,
    /// The bind test of the port asked about.
    PortTested { test: BindTest },
    /// The child was spawned; `process` is the handle it is kept under.
    Spawned { process: u64, pid: Option<u32> },
    /// The reply to a probe.
    Probed { reply: ProbeReply },
    /// The child polled has not exited.
    StillRunning,
    /// The child polled has exited, with this code if it is known, at this
    /// time in seconds since the epoch.
    Exited { code: Option<i32>, approx_time: u64 },
    /// The weight was changed.
    WeightSet,
    /// What was asked for failed.
    Failed { message: String },
}

/// `Event` as contracts see it.
pub enum EventView {
    Tick,
    Snapshot { state: IpvsStateView },
    ServiceReset,
    PortTested { test: BindTestView },
    Spawned { process: u64, pid: Option<u32> },
    Probed { reply: ProbeReplyView },
    StillRunning,
    Exited { code: Option<i32>, approx_time: u64 },
    WeightSet,
    Failed { message: Seq<char> },
}

impl View for Event {
    type V = EventView;

    open spec fn view(&self) -> EventView {
        match self {
            Event::Tick => EventView::Tick,
            Event::Snapshot { state } => EventView::Snapshot { state: state@ },
            Event::ServiceReset => EventView::ServiceReset,
            Event::PortTested { test } => EventView::PortTested { test: test@ },
            Event::Spawned { process, pid } => EventView::Spawned { process: *process, pid: *pid },
            Event::Probed { reply } => EventView::Probed { reply: reply@ },
            Event::StillRunning => EventView::StillRunning,
            Event::Exited { code, approx_time } => EventView::Exited {
                code: *code,
                approx_time: *approx_time,
            },
            Event::WeightSet => EventView::WeightSet,
            Event::Failed { message } => EventView::Failed { message: message@ },
        }
    }
}

/// What a pass asks of its surroundings.
#[derive(Debug, PartialEq, Eq)]
pub enum Request {
    /// Take a snapshot of the kernel's virtual services.
    Snapshot,
    /// Delete the virtual service, ignoring failure, then create it.
    ResetService { spec: ServiceSpec },
    /// Test whether `port` can be bound.
    TestPort { port: u16 },
    /// Spawn a child of `process_spec` with the variables of `env`, applied
    /// in order.
    Spawn { process_spec: ProcessSpec, env: Vec<(String, String)> },
    /// Issue an HTTP GET to `url`.
    Probe { url: String },
    /// Check, without blocking, whether the child kept under `process` has exited.
    PollExit { process: u64 },
    /// Set the weight of the loopback real server on `port` under `service`.
    SetWeight { service: ServiceSpec, port: u16, weight: i32 },
    /// The pass is complete.
    Done,
    /// The pass was given up.
    Failed { error: HousekeepingError },
}

/// `Request` as contracts see it.
pub enum RequestView {
    Snapshot,
    ResetService { spec: ServiceSpecView },
    TestPort { port: u16 },
    Spawn { process_spec: ProcessSpecView, env: Seq<(Seq<char>, Seq<char>)> },
    Probe { url: Seq<char> },
    PollExit { process: u64 },
    SetWeight { service: ServiceSpecView, port: u16, weight: i32 },
    Done,
    Failed { error: HousekeepingErrorView },
}

impl View for Request {
    type V = RequestView;

    open spec fn view(&self) -> RequestView {
        match self {
            Request::Snapshot => RequestView::Snapshot,
            Request::ResetService { spec } => RequestView::ResetService { spec: spec@ },
            Request::TestPort { port } => RequestView::TestPort { port: *port },
            Request::Spawn { process_spec, env } => RequestView::Spawn {
                process_spec: process_spec@,
                env: env.deep_view(),
            },
            Request::Probe { url } => RequestView::Probe { url: url@ },
            Request::PollExit { process } => RequestView::PollExit { process: *process },
            Request::SetWeight { service, port, weight } => RequestView::SetWeight {
                service: service@,
                port: *port,
                weight: *weight,
            },
            Request::Done => RequestView::Done,
            Request::Failed { error } => RequestView::Failed { error: error@ },
        }
    }
}

impl DeepView for Request {
    type V = RequestView;

    open spec fn deep_view(&self) -> RequestView {
        self@
    }
}

/// One step of a pass: the events it recorded, the processes to send a
/// termination signal, and what it asks for next.
#[derive(Debug, PartialEq, Eq)]
pub struct Step {
    pub events: Vec<LogEvent>,
    pub signals: Vec<u32>,
    pub request: Request,
}

/// `Step` as contracts see it.
pub struct StepView {
    pub events: Seq<LogEventView>,
    pub signals: Seq<u32>,
    pub request: RequestView,
}

impl View for Step {
    type V = StepView;

    open spec fn view(&self) -> StepView {
        StepView {
            events: self.events.deep_view(),
            signals: self.signals@,
            request: self.request@,
        }
    }
}

/// Everything the supervisor keeps between requests and passes.
pub struct GlobalState {
    pub target_text: String,
    pub target: HujingzhiTarget,
    pub processed_services: Vec<String>,
    pub processes_by_name: Vec<ProcessSet>,
    pub free_loopback_ports: VecDeque<u16>,
    pub allocated_ports: HashSet<u16>,
    pub last_ipvs_state: Option<IpvsState>,
    pub log: EventLog,
    pub limiter: RateLimiter,
    pub counter: usize,
    pub adjectives: Vec<String>,
    pub nouns: Vec<String>,
    pub cursor: Cursor,
    pub launching: Option<ProcessSpec>,
    pub pending_ports: Vec<(String, u16)>,
    pub emitted: Vec<LogEvent>,
    pub signals: Vec<u32>,
}

/// `GlobalState` as contracts see it.
pub struct StateView {
    pub target_text: Seq<char>,
    pub target: HujingzhiTargetView,
    pub processed_services: Seq<Seq<char>>,
    pub processes_by_name: Seq<ProcessSetView>,
    pub free: Seq<u16>,
    pub allocated: Set<u16>,
    pub last_ipvs_state: Option<IpvsStateView>,
    pub log: Seq<LogEventView>,
    pub limiter: Seq<(Seq<char>, u64)>,
    pub counter: usize,
    pub adjectives: Seq<Seq<char>>,
    pub nouns: Seq<Seq<char>>,
    pub cursor: CursorView,
    pub launching: Option<ProcessSpecView>,
    pub pending_ports: Seq<(Seq<char>, u16)>,
    pub emitted: Seq<LogEventView>,
    pub signals: Seq<u32>,
}

impl View for GlobalState {
    type V = StateView;

    open spec fn view(&self) -> StateView {
        StateView {
            target_text: self.target_text@,
            target: self.target@,
            processed_services: self.processed_services.deep_view(),
            processes_by_name: self.processes_by_name.deep_view(),
            free: self.free_loopback_ports@,
            allocated: self.allocated_ports@,
            last_ipvs_state: self.last_ipvs_state.deep_view(),
            log: self.log@,
            limiter: self.limiter@,
            counter: self.counter,
            adjectives: self.adjectives.deep_view(),
            nouns: self.nouns.deep_view(),
            cursor: self.cursor@,
            launching: self.launching.deep_view(),
            pending_ports: self.pending_ports.deep_view(),
            emitted: self.emitted.deep_view(),
            signals: self.signals@,
        }
    }
}

} // verus!

//! The supervisor as its surroundings use it: how it is set up, and the
//! step of a pass that draws the name of a new child by itself.
use crate::config::{
    empty_target, HujingzhiConfig, HujingzhiTarget, HujingzhiTargetView, ProcessSpec,
};
use crate::health::{health_check, health_plan, HealthPlan};
use crate::process::RunningProcessEntry;
use crate::events::{EventLog, log_event, LogEvent, LogEventView, retained};
use crate::laws::{
    all_settled, Mutation, reported, reports_of, weight_changes, weight_events_of,
};
use crate::limiter::RateLimiter;
use crate::model::tick;
use crate::naming::{dictionary_word, make_random_word};
use crate::ports::{free_ports, log_after_range, port_range};
use crate::state::{Cursor, CursorView, Event, EventView, GlobalState, StateView, Step};
use crate::validation::{
    lemma_empty_target_valid, TargetErrorView, valid_target, validate_target, validation,
};
use std::collections::HashSet;
use vstd::prelude::*;

verus! {

/// The warning recorded when the stored target is not accepted.
pub open spec fn target_ignored(error: TargetErrorView) -> LogEventView {
    LogEventView::Warning { msg: "Ignoring stored target, as it is invalid: "@ + error.message() }
}

/// The log of a supervisor that was just set up: a warning if the port
/// range holds the admin port, then a warning if the stored target was not
/// accepted.
pub open spec fn initial_log(lo: u16, hi: u16, admin: u16, target: HujingzhiTargetView) -> Seq<
    LogEventView,
> {
    let ranged = log_after_range(Seq::empty(), lo, hi, admin);
    match validation(target) {
        Ok(_) => ranged,
        Err(error) => retained(ranged.push(target_ignored(error))),
    }
}

/// The state of a supervisor that was just set up: every port of the range
/// but the admin port is free, nothing runs, and the stored target stands
/// if it is accepted, the empty target if not.
pub open spec fn initial_state(
    lo: u16,
    hi: u16,
    admin: u16,
    target_text: Seq<char>,
    target: HujingzhiTargetView,
    adjectives: Seq<Seq<char>>,
    nouns: Seq<Seq<char>>,
) -> StateView {
    StateView {
        target_text,
        target: if valid_target(target) {
            target
        } else {
            empty_target()
        },
        processed_services: Seq::empty(),
        processes_by_name: Seq::empty(),
        free: port_range(lo as int, hi as int, admin),
        allocated: Set::empty(),
        last_ipvs_state: None,
        log: initial_log(lo, hi, admin, target),
        limiter: Seq::empty(),
        counter: 0,
        adjectives,
        nouns,
        cursor: CursorView::Idle,
        launching: None,
        pending_ports: Seq::empty(),
        emitted: Seq::empty(),
        signals: Seq::empty(),
    }
}

/// Whether a step adds a child, and so needs a name for it.
pub open spec fn names_child(s: StateView, event: EventView) -> bool {
    s.cursor is AwaitSpawn && event is Spawned
}

/// Whether `word` may stand in the name of the child a step adds: a word
/// of the dictionary when the step adds one, the empty word when not.
pub open spec fn name_word(s: StateView, event: EventView, word: Seq<char>) -> bool {
    if names_child(s, event) {
        dictionary_word(s.adjectives, s.nouns, word)
    } else {
        word == Seq::<char>::empty()
    }
}

impl GlobalState {
    /// Sets the supervisor up over the port range of `config`, with the
    /// stored target and the two word lists that children are named from.
    pub fn new(
        config: &HujingzhiConfig,
        target_text: String,
        target: HujingzhiTarget,
        adjectives: Vec<String>,
        nouns: Vec<String>,
    ) -> (state: Self)
        requires
            adjectives.len() > 0,
            nouns.len() > 0,
        ensures
            state@ == initial_state(
                config.server.loopback_ports.0,
                config.server.loopback_ports.1,
                config.server.admin_port,
                target_text@,
                target@,
                adjectives.deep_view(),
                nouns.deep_view(),
            ),
            state@.wf(),
    {
        let lo = config.server.loopback_ports.0;
        let hi = config.server.loopback_ports.1;
        let admin = config.server.admin_port;
        let mut log = EventLog::new();
        let free_loopback_ports = free_ports(lo, hi, admin, &mut log);
        let ghost given = target@;
        let target = match validate_target(&target) {
            Ok(_) => target,
            Err(e) => {
                let msg = "Ignoring stored target, as it is invalid: ".to_owned().concat(
                    e.message().as_str(),
                );
                log_event(&mut log, LogEvent::Warning { msg });
                proof {
                    lemma_empty_target_valid();
                }
                HujingzhiTarget::default()
            },
        };
        let state = GlobalState {
            target_text,
            target,
            processed_services: Vec::new(),
            processes_by_name: Vec::new(),
            free_loopback_ports,
            allocated_ports: HashSet::new(),
            last_ipvs_state: None,
            log,
            limiter: RateLimiter::new(),
            counter: 0,
            adjectives,
            nouns,
            cursor: Cursor::Idle,
            launching: None,
            pending_ports: Vec::new(),
            emitted: Vec::new(),
            signals: Vec::new(),
        };
        proof {
            let expected = initial_state(
                lo,
                hi,
                admin,
                target_text@,
                given,
                adjectives.deep_view(),
                nouns.deep_view(),
            );
            assert(state@.processed_services =~= expected.processed_services);
            assert(state@.processes_by_name =~= expected.processes_by_name);
            assert(state@.pending_ports =~= expected.pending_ports);
            assert(state@.emitted =~= expected.emitted);
            assert(state@.signals =~= expected.signals);
            assert(state@.allocated =~= expected.allocated);
            assert(state@.allocated.difference(crate::model::pending_set(state@.pending_ports))
                =~= Set::<u16>::empty());
        }
        state
    }

    /// Decides how to learn whether the child `entry`, launched from
    /// `process_spec`, is healthy.
    pub fn health_check(process_spec: &ProcessSpec, entry: &RunningProcessEntry) -> (plan:
        HealthPlan)
        ensures
            plan@ == health_plan(process_spec@, entry@.port_allocations),
    {
        health_check(process_spec, &entry.port_allocations)
    }

    /// One step of a pass: takes in the answer `event` and carries the pass
    /// on to its next request. When the step adds a child, its name is made
    /// of a random word of the dictionary.
    pub fn housekeeping(&mut self, event: Event, now: u64) -> (step: Step)
        requires
            old(self)@.wf(),
        ensures
            final(self)@.wf(),
            exists|word: Seq<char>|
                name_word(old(self)@, event@, word) && (final(self)@, step@) == #[trigger] tick(
                    old(self)@,
                    event@,
                    now,
                    word,
                ),
            step.request is Done ==> all_settled(final(self)@),
            weight_changes(step@.events) == weight_events_of(step@.request),
            reported(Mutation::Service, step@.events) == reports_of(
                Mutation::Service,
                step@.request,
            ),
    {
        let spawning = match (&self.cursor, &event) {
            (Cursor::AwaitSpawn { .. }, Event::Spawned { .. }) => true,
            _ => false,
        };
        let word = if spawning {
            make_random_word(&self.adjectives, &self.nouns)
        } else {
            String::new()
        };
        assert(name_word(self@, event@, word@));
        self.housekeeping_step(event, now, word)
    }
}

} // verus!

//! The reconciliation pass, step by step. Each step takes in one answer
//! from outside and carries the pass on to its next request.
use crate::config::ProcessSpec;
use crate::events::{clone_ports, LogEvent, ProcessStatus, record};
use crate::health::{bind_port, health_check, health_verdict, HealthPlan};
use crate::invariants::lemma_ports_in_grow;
use crate::ipvs::lookup;
use crate::launch::environment;
use crate::laws::{
    all_settled, law_change_recorded_iff_requested, law_completed_pass_leaves_one_running,
    law_weight_change_iff_requested, Mutation, reported, reports_of, weight_changes,
    weight_events_of,
};
use crate::limiter::{HEALTH_INTERVAL, rate_limit, START_INTERVAL};
use crate::model::{
    advance, advance_collect, advance_counts, advance_demote, advance_ensure, advance_ports,
    advance_promote, advance_reap, advance_services, advance_sunset, advance_weights, empty_set,
    ensured, lemma_advance_rank, pending_set, rank_inner, rank_outer, rank_phase, rank_stage,
    released_allocated, released_free, resume, resume_port, resume_spawned, run, set_named,
    set_position, tick,
};
use crate::ports::{allocate_port, Allocation, BindTest, release_port};
use crate::preservation::{
    lemma_advance_internal, lemma_advance_wf, lemma_resume_internal, lemma_resume_wf,
};
use crate::process::{
    collect_exited, ProcessSet, RunningProcessEntry, sunset_older, update_connection_counts,
};
use crate::search::lemma_first_is;
use crate::state::{Cursor, Event, GlobalState, HousekeepingError, Request, StateView, Step};
use vstd::prelude::*;
use vstd::std_specs::vecdeque::VecDequeAdditionalSpecFns;

verus! {

/// Whether `names` holds `name`.
pub fn contains_name(names: &Vec<String>, name: &String) -> (r: bool)
    ensures
        r == names.deep_view().contains(name@),
{
    let mut i: usize = 0;
    while i < names.len()
        invariant
            i <= names.len(),
            forall|j: int| 0 <= j < i ==> names.deep_view()[j] != name@,
        decreases names.len() - i,
    {
        if names[i] == *name {
            assert(names.deep_view()[i as int] == name@);
            return true;
        }
        i += 1;
    }
    false
}

impl GlobalState {
    /// Records `event` in the log and among the events of the current step.
    pub fn emit(&mut self, event: LogEvent)
        ensures
            final(self)@ == old(self)@.emit(event@),
    {
        record(&mut self.log, &mut self.emitted, event);
    }

    /// Gives the pass up with `error`.
    pub fn fail(&mut self, error: HousekeepingError) -> (request: Option<Request>)
        ensures
            (final(self)@, request.deep_view()) == old(self)@.fail(error@),
    {
        let msg = "Housekeeping error: ".to_owned().concat(error.message().as_str());
        self.emit(LogEvent::Error { msg });
        self.cursor = Cursor::Idle;
        Some(Request::Failed { error })
    }

    /// Moves the child at `entry` of the set at `set` to `status`.
    pub fn set_status(&mut self, set: usize, entry: usize, status: ProcessStatus)
        requires
            set < old(self).processes_by_name.len(),
            entry < old(self).processes_by_name[set as int].running_versions.len(),
        ensures
            final(self)@ == old(self)@.set_status(set as int, entry as int, status),
    {
        let ghost before = self@;
        self.processes_by_name[set].running_versions[entry].1.update_status(
            status,
            &mut self.log,
            &mut self.emitted,
        );
        proof {
            let version = before.versions(set as int)[entry as int];
            let expected = before.set_status(set as int, entry as int, status);
            assert(self@.processes_by_name[set as int].running_versions
                =~= before.versions(set as int).update(
                entry as int,
                (version.0, crate::process::EntryView { status, ..version.1 }),
            ));
            assert(self@.processes_by_name =~= expected.processes_by_name);
        }
    }

    /// From `Services`: skip services already set up; ask for the first
    /// that is not.
    pub fn advance_services(&mut self, index: usize) -> (request: Option<Request>)
        requires
            old(self).cursor == (Cursor::Services { index }),
        ensures
            (final(self)@, request.deep_view()) == advance_services(old(self)@, index as int),
    {
        if index >= self.target.services.len() {
            self.cursor = Cursor::Ensure { set: 0 };
            None
        } else {
            assert(self@.target.services[index as int] == self.target.services[index as int]@);
            if contains_name(&self.processed_services, &self.target.services[index].name) {
                self.cursor = Cursor::Services { index: index + 1 };
                None
            } else {
                let spec = self.target.services[index].clone();
                self.emit(LogEvent::CreateIpvsService { spec: spec.clone() });
                self.cursor = Cursor::AwaitService { index };
                Some(Request::ResetService { spec })
            }
        }
    }

    /// From `Ensure`: decide whether the set at `set` needs a new version.
    pub fn advance_ensure(&mut self, set: usize) -> (request: Option<Request>)
        requires
            old(self).cursor == (Cursor::Ensure { set }),
        ensures
            (final(self)@, request.deep_view()) == advance_ensure(old(self)@, set as int),
    {
        if set >= self.processes_by_name.len() {
            self.cursor = Cursor::Weights { set: 0, entry: 0, binding: 0 };
            return None;
        }
        assert(self@.processes_by_name[set as int] == self.processes_by_name[set as int]@);
        match self.target.find_process(&self.processes_by_name[set].name) {
            None => {
                self.cursor = Cursor::Counts { set };
                None
            },
            Some(p) => {
                assert(self@.target.processes[p as int] == self.target.processes[p as int]@);
                let count = self.processes_by_name[set].running_versions.len();
                if count > 0 {
                    assert(self@.versions(set as int).last()
                        == self.processes_by_name[set as int].running_versions[count
                        - 1].deep_view());
                    if self.processes_by_name[set].running_versions[count - 1].0.same_as(
                        &self.target.processes[p],
                    ) {
                        self.cursor = Cursor::Counts { set };
                        return None;
                    }
                }
                self.launching = Some(self.target.processes[p].clone());
                self.pending_ports = Vec::new();
                assert(self@.pending_ports =~= Seq::empty());
                self.cursor = Cursor::Ports { set, receive: 0 };
                None
            },
        }
    }

    /// Releases every port the launch under way has allocated.
    pub fn release_pending(&mut self)
        requires
            old(self)@.ports_wf(),
        ensures
            final(self)@ == (StateView {
                free: released_free(old(self)@.free, old(self)@.pending_ports),
                allocated: released_allocated(old(self)@.allocated, old(self)@.pending_ports),
                pending_ports: Seq::empty(),
                ..old(self)@
            }),
    {
        broadcast use vstd::std_specs::hash::group_hash_axioms;

        let ghost before = self@;
        let ghost pending = self@.pending_ports;
        let mut i: usize = 0;
        while i < self.pending_ports.len()
            invariant
                i <= self.pending_ports.len(),
                before.ports_wf(),
                pending == before.pending_ports,
                self@ == (StateView {
                    free: released_free(before.free, pending.take(i as int)),
                    allocated: released_allocated(before.allocated, pending.take(i as int)),
                    ..before
                }),
                crate::ports::pool_wf(self@.free, self@.allocated),
                forall|p: u16|
                    self@.allocated.contains(p) <==> before.allocated.contains(p) && forall|k: int|
                        0 <= k < i ==> (#[trigger] pending[k]).1 != p,
            decreases self.pending_ports.len() - i,
        {
            let port = self.pending_ports[i].1;
            proof {
                assert(pending[i as int] == self.pending_ports[i as int].deep_view());
                assert(pending.take(i as int + 1).drop_last() =~= pending.take(i as int));
                assert(pending.take(i as int + 1).last() == pending[i as int]);
                assert(before.allocated.contains(pending[i as int].1));
                assert forall|k: int| 0 <= k < i implies (#[trigger] pending[k]).1 != port by {
                    assert(pending[k].1 != pending[i as int].1);
                }
            }
            release_port(&mut self.free_loopback_ports, &mut self.allocated_ports, port);
            i += 1;
        }
        assert(pending.take(i as int) =~= pending);
        self.pending_ports = Vec::new();
        assert(self@.pending_ports =~= Seq::empty());
    }

    /// Gives up the launch under way for the set at `set`: its ports are
    /// released and the failure is recorded.
    pub fn launch_failed(&mut self, set: usize, name: String, message: String, allocating: bool)
        requires
            old(self)@.ports_wf(),
        ensures
            final(self)@ == old(self)@.launch_failed(set as int, name@, message@, allocating),
    {
        if allocating {
            let msg = "Failed to allocate ports when launching process: ".to_owned().concat(
                message.as_str(),
            );
            self.emit(LogEvent::Error { msg });
        }
        self.release_pending();
        self.launching = None;
        let msg = "Failed to launch process ".to_owned().concat(name.as_str()).concat(
            ": ",
        ).concat(message.as_str());
        self.emit(LogEvent::Error { msg });
        self.cursor = Cursor::Counts { set };
    }

    /// From `Ports`: ask for the next bind test, fail the launch, or ask
    /// for the spawn.
    pub fn advance_ports(&mut self, set: usize, receive: usize) -> (request: Option<Request>)
        requires
            old(self).cursor == (Cursor::Ports { set, receive }),
            old(self)@.ports_wf(),
        ensures
            (final(self)@, request.deep_view()) == advance_ports(
                old(self)@,
                set as int,
                receive as int,
            ),
    {
        let (name, receives, commands) = match &self.launching {
            None => {
                self.cursor = Cursor::Counts { set };
                return None;
            },
            Some(spec) => (spec.name.clone(), spec.receives.len(), spec.command.len()),
        };
        if receive < receives {
            if self.free_loopback_ports.len() == 0 {
                self.launch_failed(set, name, "No more free loopback ports".to_owned(), true);
                None
            } else {
                let port = self.free_loopback_ports[0];
                self.cursor = Cursor::AwaitPort { set, receive };
                Some(Request::TestPort { port })
            }
        } else if commands == 0 {
            self.launch_failed(set, name, "Empty command".to_owned(), false);
            None
        } else {
            let request = match &self.launching {
                None => None,
                Some(spec) => Some(
                    Request::Spawn {
                        process_spec: spec.clone(),
                        env: environment(spec, &self.pending_ports),
                    },
                ),
            };
            self.cursor = Cursor::AwaitSpawn { set };
            request
        }
    }

    /// From `Counts`: bring the connection counts of the set up to date.
    pub fn advance_counts(&mut self, set: usize) -> (request: Option<Request>)
        requires
            old(self).cursor == (Cursor::Counts { set }),
            set < old(self).processes_by_name.len(),
        ensures
            (final(self)@, request.deep_view()) == advance_counts(old(self)@, set as int),
    {
        let ghost before = self@;
        update_connection_counts(
            &mut self.processes_by_name[set].running_versions,
            &self.last_ipvs_state,
        );
        self.cursor = Cursor::Promote { set };
        proof {
            assert(self@.processes_by_name =~= advance_counts(
                before,
                set as int,
            ).0.processes_by_name);
        }
        None
    }

    /// From `Promote`: decide whether to probe the newest version.
    pub fn advance_promote(&mut self, set: usize, now: u64) -> (request: Option<Request>)
        requires
            old(self).cursor == (Cursor::Promote { set }),
            set < old(self).processes_by_name.len(),
        ensures
            (final(self)@, request.deep_view()) == advance_promote(old(self)@, set as int, now),
    {
        let count = self.processes_by_name[set].running_versions.len();
        if count == 0 {
            self.cursor = Cursor::Demote { set, entry: 0 };
            return None;
        }
        assert(self@.versions(set as int).last()
            == self.processes_by_name[set as int].running_versions[count - 1].deep_view());
        if !self.processes_by_name[set].running_versions[count - 1].1.status.is_starting() {
            self.cursor = Cursor::Demote { set, entry: 0 };
            return None;
        }
        let key = "start:".to_owned().concat(
            self.processes_by_name[set].running_versions[count - 1].1.name.as_str(),
        );
        let open = rate_limit(&mut self.limiter, key, now, START_INTERVAL);
        if !open {
            self.cursor = Cursor::Demote { set, entry: 0 };
            return None;
        }
        let plan = health_check(
            &self.processes_by_name[set].running_versions[count - 1].0,
            &self.processes_by_name[set].running_versions[count - 1].1.port_allocations,
        );
        match plan {
            HealthPlan::Healthy => {
                self.set_status(set, count - 1, ProcessStatus::Running);
                self.cursor = Cursor::Demote { set, entry: 0 };
                None
            },
            HealthPlan::MissingPort { service } => self.fail(
                HousekeepingError::NoPortForService { service },
            ),
            HealthPlan::Probe { url } => {
                self.cursor = Cursor::AwaitStart { set };
                Some(Request::Probe { url })
            },
        }
    }

    /// From `Demote`: decide whether to probe the version at `entry`.
    pub fn advance_demote(&mut self, set: usize, entry: usize, now: u64) -> (request: Option<
        Request,
    >)
        requires
            old(self).cursor == (Cursor::Demote { set, entry }),
            set < old(self).processes_by_name.len(),
        ensures
            (final(self)@, request.deep_view()) == advance_demote(
                old(self)@,
                set as int,
                entry as int,
                now,
            ),
    {
        if entry >= self.processes_by_name[set].running_versions.len() {
            self.cursor = Cursor::Sunset { set };
            return None;
        }
        assert(self@.versions(set as int)[entry as int]
            == self.processes_by_name[set as int].running_versions[entry as int].deep_view());
        if !self.processes_by_name[set].running_versions[entry].1.status.is_running() {
            self.cursor = Cursor::Demote { set, entry: entry + 1 };
            return None;
        }
        let key = "health:".to_owned().concat(
            self.processes_by_name[set].running_versions[entry].1.name.as_str(),
        );
        let open = rate_limit(&mut self.limiter, key, now, HEALTH_INTERVAL);
        if !open {
            self.cursor = Cursor::Demote { set, entry: entry + 1 };
            return None;
        }
        let plan = health_check(
            &self.processes_by_name[set].running_versions[entry].0,
            &self.processes_by_name[set].running_versions[entry].1.port_allocations,
        );
        match plan {
            HealthPlan::Healthy => {
                self.cursor = Cursor::Demote { set, entry: entry + 1 };
                None
            },
            HealthPlan::MissingPort { service } => self.fail(
                HousekeepingError::NoPortForService { service },
            ),
            HealthPlan::Probe { url } => {
                self.cursor = Cursor::AwaitHealth { set, entry };
                Some(Request::Probe { url })
            },
        }
    }

    /// From `Sunset`: sunset the superseded versions of the set.
    pub fn advance_sunset(&mut self, set: usize) -> (request: Option<Request>)
        requires
            old(self).cursor == (Cursor::Sunset { set }),
            set < old(self).processes_by_name.len(),
        ensures
            (final(self)@, request.deep_view()) == advance_sunset(old(self)@, set as int),
    {
        let ghost before = self@;
        sunset_older(
            &mut self.processes_by_name[set].running_versions,
            &mut self.log,
            &mut self.emitted,
            &mut self.signals,
        );
        self.cursor = Cursor::Reap { set, entry: 0 };
        proof {
            assert(self@.processes_by_name =~= advance_sunset(
                before,
                set as int,
            ).0.processes_by_name);
        }
        None
    }

    /// From `Reap`: ask whether the child at `entry` has exited.
    pub fn advance_reap(&mut self, set: usize, entry: usize) -> (request: Option<Request>)
        requires
            old(self).cursor == (Cursor::Reap { set, entry }),
            set < old(self).processes_by_name.len(),
        ensures
            (final(self)@, request.deep_view()) == advance_reap(
                old(self)@,
                set as int,
                entry as int,
            ),
    {
        if entry >= self.processes_by_name[set].running_versions.len() {
            self.cursor = Cursor::Collect { set };
            None
        } else {
            assert(self@.versions(set as int)[entry as int]
                == self.processes_by_name[set as int].running_versions[entry as int].deep_view());
            let process = self.processes_by_name[set].running_versions[entry].1.process;
            self.cursor = Cursor::AwaitExit { set, entry };
            Some(Request::PollExit { process })
        }
    }

    /// From `Collect`: drop the versions whose child has exited.
    pub fn advance_collect(&mut self, set: usize) -> (request: Option<Request>)
        requires
            old(self).cursor == (Cursor::Collect { set }),
            set < old(self).processes_by_name.len(),
        ensures
            (final(self)@, request.deep_view()) == advance_collect(old(self)@, set as int),
    {
        let ghost before = self@;
        collect_exited(&mut self.processes_by_name[set].running_versions);
        self.cursor = Cursor::Ensure { set: set + 1 };
        proof {
            assert(self@.processes_by_name =~= advance_collect(
                before,
                set as int,
            ).0.processes_by_name);
        }
        None
    }

    /// From `Weights`: ask for the next weight change, or complete the pass.
    pub fn advance_weights(&mut self, set: usize, entry: usize, binding: usize) -> (request:
        Option<Request>)
        requires
            old(self).cursor == (Cursor::Weights { set, entry, binding }),
        ensures
            (final(self)@, request.deep_view()) == advance_weights(
                old(self)@,
                set as int,
                entry as int,
                binding as int,
            ),
    {
        if set >= self.processes_by_name.len() {
            self.cursor = Cursor::Idle;
            return Some(Request::Done);
        }
        if entry >= self.processes_by_name[set].running_versions.len() {
            self.cursor = Cursor::Weights { set: set + 1, entry: 0, binding: 0 };
            return None;
        }
        assert(self@.versions(set as int)[entry as int]
            == self.processes_by_name[set as int].running_versions[entry as int].deep_view());
        if binding >= self.processes_by_name[set].running_versions[entry].1.port_allocations.len() {
            self.cursor = Cursor::Weights { set, entry: entry + 1, binding: 0 };
            return None;
        }
        assert(self@.versions(set as int)[entry as int].1.port_allocations[binding as int]
            == self.processes_by_name[set as int].running_versions[entry as int].1.port_allocations[binding as int].deep_view());
        let port = self.processes_by_name[set].running_versions[entry].1.port_allocations[binding].1;
        let wanted = self.processes_by_name[set].running_versions[entry].1.status.weight();
        let found = self.target.find_service(
            &self.processes_by_name[set].running_versions[entry].1.port_allocations[binding].0,
        );
        match found {
            None => {
                let service =
                    self.processes_by_name[set].running_versions[entry].1.port_allocations[binding].0.clone();
                self.fail(HousekeepingError::ServiceNotFound { service })
            },
            Some(k) => {
                assert(self@.target.services[k as int] == self.target.services[k as int]@);
                let current = match lookup(&self.last_ipvs_state, port) {
                    Some(info) => info.weight,
                    None => 0,
                };
                if current == wanted {
                    self.cursor = Cursor::Weights { set, entry, binding: binding + 1 };
                    None
                } else {
                    let service = self.target.services[k].clone();
                    self.emit(
                        LogEvent::WeightChange {
                            service: service.name.clone(),
                            port,
                            weight: wanted,
                        },
                    );
                    self.cursor = Cursor::AwaitWeight { set, entry, binding };
                    Some(Request::SetWeight { service, port, weight: wanted })
                }
            },
        }
    }

    /// The position of the set called `name`.
    pub fn find_set(&self, name: &String) -> (r: Option<usize>)
        ensures
            match r {
                Some(i) => i < self.processes_by_name.len() && i == set_position(
                    self@.processes_by_name,
                    name@,
                ),
                None => set_position(self@.processes_by_name, name@)
                    == self.processes_by_name.len(),
            },
    {
        let ghost sets = self@.processes_by_name;
        let ghost hit = |j: int| set_named(sets, name@, j);
        let mut i: usize = 0;
        while i < self.processes_by_name.len()
            invariant
                i <= self.processes_by_name.len(),
                sets == self@.processes_by_name,
                hit == (|j: int| set_named(sets, name@, j)),
                forall|j: int| 0 <= j < i ==> !#[trigger] hit(j),
            decreases self.processes_by_name.len() - i,
        {
            assert(sets[i as int] == self.processes_by_name[i as int]@);
            if self.processes_by_name[i].name == *name {
                proof {
                    lemma_first_is(0, sets.len() as int, hit, i as int);
                }
                return Some(i);
            }
            i += 1;
        }
        proof {
            lemma_first_is(0, sets.len() as int, hit, i as int);
        }
        None
    }

    /// Gives every process of the target a set.
    pub fn ensure_sets(&mut self)
        ensures
            final(self)@ == (StateView {
                processes_by_name: ensured(
                    old(self)@.processes_by_name,
                    old(self)@.target.processes,
                ),
                ..old(self)@
            }),
    {
        let ghost before = self@;
        let ghost processes = self@.target.processes;
        let mut i: usize = 0;
        while i < self.target.processes.len()
            invariant
                i <= self.target.processes.len(),
                processes == before.target.processes,
                self@ == (StateView {
                    processes_by_name: ensured(before.processes_by_name, processes.take(i as int)),
                    ..before
                }),
            decreases self.target.processes.len() - i,
        {
            let ghost sets = self@.processes_by_name;
            proof {
                assert(processes[i as int] == self.target.processes[i as int]@);
                assert(processes.take(i as int + 1).drop_last() =~= processes.take(i as int));
                assert(processes.take(i as int + 1).last() == processes[i as int]);
            }
            let found = self.find_set(&self.target.processes[i].name);
            if found.is_none() {
                let set = ProcessSet::new(self.target.processes[i].name.clone());
                self.processes_by_name.push(set);
                assert(self@.processes_by_name =~= sets.push(
                    empty_set(processes[i as int].name),
                ));
            }
            i += 1;
        }
        assert(processes.take(i as int) =~= processes);
    }

    /// Takes in the bind test of the front port.
    pub fn resume_port(&mut self, set: usize, receive: usize, test: BindTest) -> (request:
        Option<Request>)
        requires
            old(self).cursor == (Cursor::AwaitPort { set, receive }),
            old(self)@.ports_wf(),
            old(self)@.launching is Some ==> receive < old(self)@.launching->0.receives.len(),
        ensures
            (final(self)@, request.deep_view()) == resume_port(
                old(self)@,
                set as int,
                receive as int,
                test@,
            ),
    {
        let ghost before = self@;
        let (name, service) = match &self.launching {
            None => {
                self.cursor = Cursor::Counts { set };
                return None;
            },
            Some(spec) => {
                assert(before.launching == Some(spec@));
                assert(spec@.receives.len() == spec.receives.len());
                assert(spec@.receives[receive as int] == spec.receives[receive as int]@);
                (spec.name.clone(), spec.receives[receive].clone())
            },
        };
        let outcome = allocate_port(
            &mut self.free_loopback_ports,
            &mut self.allocated_ports,
            test,
            &mut self.log,
            &mut self.emitted,
        );
        match outcome {
            Allocation::Allocated { port } => {
                bind_port(&mut self.pending_ports, service, port);
                self.cursor = Cursor::Ports { set, receive: receive + 1 };
                None
            },
            Allocation::Retry => {
                self.cursor = Cursor::Ports { set, receive };
                None
            },
            Allocation::Exhausted => {
                proof {
                    lemma_ports_in_grow(
                        before.processes_by_name,
                        before.allocated.difference(pending_set(before.pending_ports)),
                        self@.allocated.difference(pending_set(self@.pending_ports)),
                    );
                }
                self.launch_failed(set, name, "No more free loopback ports".to_owned(), true);
                None
            },
            Allocation::Failed { message } => {
                proof {
                    lemma_ports_in_grow(
                        before.processes_by_name,
                        before.allocated.difference(pending_set(before.pending_ports)),
                        self@.allocated.difference(pending_set(self@.pending_ports)),
                    );
                }
                self.launch_failed(set, name, message, true);
                None
            },
        }
    }

    /// Takes in a spawned child: it joins its set as the newest version.
    pub fn resume_spawned(
        &mut self,
        set: usize,
        process: u64,
        pid: Option<u32>,
        now: u64,
        word: String,
    ) -> (request: Option<Request>)
        requires
            old(self).cursor == (Cursor::AwaitSpawn { set }),
            set < old(self).processes_by_name.len(),
        ensures
            (final(self)@, request.deep_view()) == resume_spawned(
                old(self)@,
                set as int,
                process,
                pid,
                now,
                word@,
            ),
    {
        let ghost before = self@;
        let mut launching: Option<ProcessSpec> = None;
        std::mem::swap(&mut self.launching, &mut launching);
        match launching {
            None => {
                self.cursor = Cursor::Counts { set };
                None
            },
            Some(spec) => {
                let mut ports: Vec<(String, u16)> = Vec::new();
                std::mem::swap(&mut self.pending_ports, &mut ports);
                assert(self@.pending_ports =~= Seq::empty());
                let announced = clone_ports(&ports);
                let entry = RunningProcessEntry::new(
                    process,
                    pid,
                    ports,
                    word.as_str(),
                    &mut self.counter,
                    now,
                );
                self.emit(
                    LogEvent::LaunchProcess {
                        name: entry.name.clone(),
                        process_name: spec.name.clone(),
                        port_allocations: announced,
                    },
                );
                let ghost versions = self@.versions(set as int);
                assert(self@.processes_by_name.len() == before.processes_by_name.len());
                assert(self.processes_by_name.deep_view().len() == self.processes_by_name.len());
                self.processes_by_name[set].running_versions.push((spec, entry));
                self.cursor = Cursor::Counts { set };
                proof {
                    assert(self@.processes_by_name[set as int].running_versions =~= versions.push(
                        (spec@, entry@),
                    ));
                    assert(self@.processes_by_name =~= resume_spawned(
                        before,
                        set as int,
                        process,
                        pid,
                        now,
                        word@,
                    ).0.processes_by_name);
                }
                None
            },
        }
    }

    /// One move of the pass from a position that needs no answer from outside.
    pub fn advance(&mut self, now: u64) -> (request: Option<Request>)
        requires
            old(self)@.cursor_wf(),
            old(self)@.ports_wf(),
        ensures
            (final(self)@, request.deep_view()) == advance(old(self)@, now),
    {
        assert(self@.processes_by_name.len() == self.processes_by_name.len());
        match self.cursor {
            Cursor::Services { index } => self.advance_services(index),
            Cursor::Ensure { set } => self.advance_ensure(set),
            Cursor::Ports { set, receive } => self.advance_ports(set, receive),
            Cursor::Counts { set } => self.advance_counts(set),
            Cursor::Promote { set } => self.advance_promote(set, now),
            Cursor::Demote { set, entry } => self.advance_demote(set, entry, now),
            Cursor::Sunset { set } => self.advance_sunset(set),
            Cursor::Reap { set, entry } => self.advance_reap(set, entry),
            Cursor::Collect { set } => self.advance_collect(set),
            Cursor::Weights { set, entry, binding } => self.advance_weights(set, entry, binding),
            _ => None,
        }
    }

    /// Takes in an answer from outside at the position that waited for it.
    pub fn resume(&mut self, event: Event, now: u64, word: String) -> (request: Option<Request>)
        requires
            old(self)@.cursor_wf(),
            old(self)@.ports_wf(),
        ensures
            (final(self)@, request.deep_view()) == resume(old(self)@, event@, now, word@),
    {
        let ghost before = self@;
        assert(self@.processes_by_name.len() == self.processes_by_name.len());
        match self.cursor {
            Cursor::Idle => match event {
                Event::Tick => {
                    self.ensure_sets();
                    self.cursor = Cursor::AwaitSnapshot;
                    Some(Request::Snapshot)
                },
                _ => self.fail(HousekeepingError::UnexpectedEvent),
            },
            Cursor::AwaitSnapshot => match event {
                Event::Snapshot { state } => {
                    self.last_ipvs_state = Some(state);
                    self.cursor = Cursor::Services { index: 0 };
                    None
                },
                Event::Failed { message } => self.fail(HousekeepingError::Adapter { message }),
                _ => self.fail(HousekeepingError::UnexpectedEvent),
            },
            Cursor::AwaitService { index } => match event {
                Event::ServiceReset => {
                    assert(self@.target.services.len() == self.target.services.len());
                    assert(self@.target.services[index as int]
                        == self.target.services[index as int]@);
                    let ghost processed = self@.processed_services;
                    self.processed_services.push(self.target.services[index].name.clone());
                    assert(self@.processed_services =~= processed.push(
                        before.target.services[index as int].name,
                    ));
                    self.cursor = Cursor::Services { index: index + 1 };
                    None
                },
                Event::Failed { message } => self.fail(HousekeepingError::Adapter { message }),
                _ => self.fail(HousekeepingError::UnexpectedEvent),
            },
            Cursor::AwaitPort { set, receive } => match event {
                Event::PortTested { test } => self.resume_port(set, receive, test),
                _ => self.fail(HousekeepingError::UnexpectedEvent),
            },
            Cursor::AwaitSpawn { set } => match event {
                Event::Spawned { process, pid } => self.resume_spawned(
                    set,
                    process,
                    pid,
                    now,
                    word,
                ),
                Event::Failed { message } => {
                    let name = match &self.launching {
                        None => {
                            self.cursor = Cursor::Counts { set };
                            return None;
                        },
                        Some(spec) => spec.name.clone(),
                    };
                    self.launch_failed(set, name, message, false);
                    None
                },
                _ => self.fail(HousekeepingError::UnexpectedEvent),
            },
            Cursor::AwaitStart { set } => match event {
                Event::Probed { reply } => match health_verdict(reply) {
                    Ok(healthy) => {
                        if healthy {
                            let count = self.processes_by_name[set].running_versions.len();
                            assert(count == before.versions(set as int).len());
                            self.set_status(set, count - 1, ProcessStatus::Running);
                        }
                        self.cursor = Cursor::Demote { set, entry: 0 };
                        None
                    },
                    Err(message) => self.fail(HousekeepingError::Adapter { message }),
                },
                _ => self.fail(HousekeepingError::UnexpectedEvent),
            },
            Cursor::AwaitHealth { set, entry } => match event {
                Event::Probed { reply } => match health_verdict(reply) {
                    Ok(healthy) => {
                        assert(self.processes_by_name[set as int].running_versions.len()
                            == before.versions(set as int).len());
                        if !healthy {
                            self.set_status(set, entry, ProcessStatus::Unhealthy);
                        }
                        self.cursor = Cursor::Demote { set, entry: entry + 1 };
                        None
                    },
                    Err(message) => self.fail(HousekeepingError::Adapter { message }),
                },
                _ => self.fail(HousekeepingError::UnexpectedEvent),
            },
            Cursor::AwaitExit { set, entry } => {
                assert(self.processes_by_name[set as int].running_versions.len()
                    == before.versions(set as int).len());
                match event {
                    Event::StillRunning => {
                        self.cursor = Cursor::Reap { set, entry: entry + 1 };
                        None
                    },
                    Event::Exited { code, approx_time } => {
                        let exit_status: i32 = match code {
                            Some(c) => c,
                            None => -1,
                        };
                        self.set_status(
                            set,
                            entry,
                            ProcessStatus::Exited { exit_status, approx_time },
                        );
                        self.cursor = Cursor::Reap { set, entry: entry + 1 };
                        None
                    },
                    Event::Failed { message } => self.fail(
                        HousekeepingError::Adapter { message },
                    ),
                    _ => self.fail(HousekeepingError::UnexpectedEvent),
                }
            },
            Cursor::AwaitWeight { set, entry, binding } => {
                assert(self.processes_by_name[set as int].running_versions.len()
                    == before.versions(set as int).len());
                assert(before.versions(set as int)[entry as int]
                    == self.processes_by_name[set as int].running_versions[entry as int].deep_view());
                assert(before.versions(set as int)[entry as int].1.port_allocations.len()
                    == self.processes_by_name[set as int].running_versions[entry as int].1.port_allocations.len());
                match event {
                    Event::WeightSet => {
                        self.cursor = Cursor::Weights { set, entry, binding: binding + 1 };
                        None
                    },
                    Event::Failed { message } => self.fail(
                        HousekeepingError::Adapter { message },
                    ),
                    _ => self.fail(HousekeepingError::UnexpectedEvent),
                }
            },
            _ => self.fail(HousekeepingError::UnexpectedEvent),
        }
    }
}

impl GlobalState {
    /// Carries the pass on, from a position that needs no answer from
    /// outside, up to its next request.
    pub fn run(&mut self, now: u64) -> (request: Request)
        requires
            old(self)@.wf(),
            old(self)@.cursor.internal(),
        ensures
            (final(self)@, request@) == run(old(self)@, now),
            final(self)@.wf(),
    {
        loop
            invariant
                self@.wf(),
                self@.cursor.internal(),
                run(self@, now) == run(old(self)@, now),
            decreases rank_phase(self@), rank_outer(self@), rank_stage(self@), rank_inner(self@),
        {
            let ghost before = self@;
            proof {
                lemma_advance_wf(before, now);
            }
            match self.advance(now) {
                Some(request) => {
                    return request;
                },
                None => {
                    proof {
                        lemma_advance_internal(before, now);
                        lemma_advance_rank(before, now);
                    }
                },
            }
        }
    }

    /// One step of a pass: takes in the answer `event` and carries the pass
    /// on to its next request. `word` names the child, if the step adds one.
    pub fn housekeeping_step(&mut self, event: Event, now: u64, word: String) -> (step: Step)
        requires
            old(self)@.wf(),
        ensures
            (final(self)@, step@) == tick(old(self)@, event@, now, word@),
            final(self)@.wf(),
            step.request is Done ==> all_settled(final(self)@),
            weight_changes(step@.events) == weight_events_of(step@.request),
            reported(Mutation::Service, step@.events) == reports_of(
                Mutation::Service,
                step@.request,
            ),
    {
        proof {
            law_weight_change_iff_requested(old(self)@, event@, now, word@);
            law_change_recorded_iff_requested(Mutation::Service, old(self)@, event@, now, word@);
            if tick(old(self)@, event@, now, word@).1.request is Done {
                if tick(old(self)@, event@, now, word@).0.processes_by_name.len() > 0 {
                    law_completed_pass_leaves_one_running(old(self)@, event@, now, word@, 0);
                }
            }
        }
        self.emitted = Vec::new();
        self.signals = Vec::new();
        assert(self@.emitted =~= Seq::empty());
        assert(self@.signals =~= Seq::empty());
        let ghost fresh = self@;
        proof {
            lemma_resume_wf(fresh, event@, now, word@);
        }
        let request = match self.resume(event, now, word) {
            Some(request) => request,
            None => {
                proof {
                    lemma_resume_internal(fresh, event@, now, word@);
                }
                self.run(now)
            },
        };
        let mut events: Vec<LogEvent> = Vec::new();
        std::mem::swap(&mut self.emitted, &mut events);
        let mut signals: Vec<u32> = Vec::new();
        std::mem::swap(&mut self.signals, &mut signals);
        assert(self@.emitted =~= Seq::empty());
        assert(self@.signals =~= Seq::empty());
        Step { events, signals, request }
    }
}

} // verus!

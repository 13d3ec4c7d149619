//! The rules a target must meet before it is accepted: process names and
//! service names each unique, and every service bound to a service address.
use crate::config::{HujingzhiTarget, HujingzhiTargetView, ServiceSpec, ServiceSpecView};
use crate::ipvs::{AddressError, host_and_port, is_service_ip, parse_host_and_port, service_ip};
use crate::search::{first_where, lemma_first_is, lemma_first_where};
use vstd::prelude::*;

verus! {

/// The text that `{:?}` prints for a string.
pub uninterp spec fn debug_text(s: Seq<char>) -> Seq<char>;

/// Formats `s` as `{:?}` does, in quotes and with escapes. Trusted: this is
/// `str`'s `Debug` impl in std; the result is named, not described.
#[verifier::external_body]
fn debug_string(s: &str) -> (r: String)
    ensures
        r@ == debug_text(s@),
{
    format!("{:?}", s)
}

/// Which list of a target a name belongs to.
#[derive(Clone, Copy, Debug, PartialEq, Eq, Structural)]
pub enum NameField {
    Processes,
    Services,
}

impl NameField {
    /// The field's name as it appears in a target.
    pub open spec fn spec_label(self) -> Seq<char> {
        match self {
            NameField::Processes => "processes"@,
            NameField::Services => "services"@,
        }
    }

    /// The field's name as it appears in a target.
    pub fn label(&self) -> (s: &'static str)
        ensures
            s@ == self.spec_label(),
    {
        match self {
            NameField::Processes => "processes",
            NameField::Services => "services",
        }
    }
}

/// Why a target is rejected.
#[derive(Debug, PartialEq, Eq)]
pub enum TargetError {
    /// Two processes, or two services, share `name`.
    DuplicateName { name: String, field: NameField },
    /// The address of `service` is not of the form `ip:port`.
    Address { service: String, error: AddressError },
    /// The address of `service` lies outside the service block.
    InvalidIp { service: String, host: String },
}

/// `TargetError` as contracts see it.
pub enum TargetErrorView {
    DuplicateName { name: Seq<char>, field: NameField },
    Address { service: Seq<char>, error: AddressError },
    InvalidIp { service: Seq<char>, host: Seq<char> },
}

impl View for TargetError {
    type V = TargetErrorView;

    open spec fn view(&self) -> TargetErrorView {
        match self {
            TargetError::DuplicateName { name, field } => TargetErrorView::DuplicateName {
                name: name@,
                field: *field,
            },
            TargetError::Address { service, error } => TargetErrorView::Address {
                service: service@,
                error: *error,
            },
            TargetError::InvalidIp { service, host } => TargetErrorView::InvalidIp {
                service: service@,
                host: host@,
            },
        }
    }
}

impl TargetErrorView {
    /// The text shown to the client.
    pub open spec fn message(self) -> Seq<char> {
        match self {
            TargetErrorView::DuplicateName { name, field } => "Duplicate name "@ + name + " in "@
                + field.spec_label(),
            TargetErrorView::Address { service, error } => error.spec_message(),
            TargetErrorView::InvalidIp { service, host } => "Service "@ + service
                + " has invalid IP "@ + debug_text(host) + " -- must start with "@ + debug_text(
                "127.0.0."@,
            ),
        }
    }
}

/// The text that tells of a service outside the service block, given the
/// host and the required prefix as they read in quotes.
pub fn invalid_ip_message(service: &str, quoted_host: &str, quoted_prefix: &str) -> (s: String)
    ensures
        s@ == "Service "@ + service@ + " has invalid IP "@ + quoted_host@
            + " -- must start with "@ + quoted_prefix@,
{
    "Service ".to_owned().concat(service).concat(" has invalid IP ").concat(quoted_host).concat(
        " -- must start with ",
    ).concat(quoted_prefix)
}

impl TargetError {
    /// The text shown to the client.
    pub fn message(&self) -> (s: String)
        ensures
            s@ == self@.message(),
    {
        match self {
            TargetError::DuplicateName { name, field } => {
                let s = "Duplicate name ".to_owned().concat(name.as_str()).concat(" in ").concat(
                    field.label(),
                );
                s
            },
            TargetError::Address { service, error } => error.message(),
            TargetError::InvalidIp { service, host } => {
                let quoted_host = debug_string(host.as_str());
                let quoted_prefix = debug_string("127.0.0.");
                invalid_ip_message(service.as_str(), quoted_host.as_str(), quoted_prefix.as_str())
            },
        }
    }
}

/// Whether the name at `j` already occurs before `j`.
pub open spec fn repeats(names: Seq<Seq<char>>, j: int) -> bool {
    exists|i: int| 0 <= i < j && #[trigger] names[i] == names[j]
}

/// The position of the first name that repeats an earlier one, or the
/// number of names when all differ.
pub open spec fn repeat_position(names: Seq<Seq<char>>) -> int {
    first_where(names.len() as int, |j: int| repeats(names, j))
}

/// No name repeats exactly when all names differ.
pub proof fn lemma_no_repeat_is_distinct(names: Seq<Seq<char>>)
    ensures
        (repeat_position(names) == names.len()) == names.no_duplicates(),
{
    let p = |j: int| repeats(names, j);
    lemma_first_where(names.len() as int, p);
    if repeat_position(names) == names.len() {
        assert forall|i: int, j: int|
            0 <= i < names.len() && 0 <= j < names.len() && i != j implies names[i] != names[j] by {
            if names[i] == names[j] {
                if i < j {
                    assert(p(j));
                } else {
                    assert(p(i));
                }
            }
        }
    } else {
        let j = repeat_position(names);
        assert(p(j));
    }
}

/// What is wrong with one service's address, if anything.
pub open spec fn service_fault(service: ServiceSpecView) -> Option<TargetErrorView> {
    match host_and_port(service.on) {
        Err(error) => Some(TargetErrorView::Address { service: service.name, error }),
        Ok(pair) => if service_ip(pair.0) {
            None
        } else {
            Some(TargetErrorView::InvalidIp { service: service.name, host: pair.0 })
        },
    }
}

/// The position of the first service with a faulty address, or the number
/// of services when there is none.
pub open spec fn fault_position(target: HujingzhiTargetView) -> int {
    first_where(target.services.len() as int, |j: int| service_fault(target.services[j]) is Some)
}

/// The outcome of validating `target`: the first repeated process name, else
/// the first repeated service name, else the first faulty service address,
/// else acceptance.
pub open spec fn validation(target: HujingzhiTargetView) -> Result<(), TargetErrorView> {
    let p = repeat_position(target.process_names());
    let s = repeat_position(target.service_names());
    let f = fault_position(target);
    if p < target.processes.len() {
        Err(
            TargetErrorView::DuplicateName {
                name: target.processes[p].name,
                field: NameField::Processes,
            },
        )
    } else if s < target.services.len() {
        Err(
            TargetErrorView::DuplicateName {
                name: target.services[s].name,
                field: NameField::Services,
            },
        )
    } else if f < target.services.len() {
        Err(service_fault(target.services[f])->0)
    } else {
        Ok(())
    }
}

/// Whether `target` is accepted.
pub open spec fn valid_target(target: HujingzhiTargetView) -> bool {
    validation(target) is Ok
}

/// An accepted target has pairwise different process names, pairwise
/// different service names, and every service bound to an address of the
/// form `ip:port` inside the service block.
pub proof fn lemma_valid_target(target: HujingzhiTargetView)
    requires
        valid_target(target),
    ensures
        target.process_names().no_duplicates(),
        target.service_names().no_duplicates(),
        forall|i: int|
            0 <= i < target.services.len() ==> (#[trigger] host_and_port(target.services[i].on))
                is Ok && service_ip(host_and_port(target.services[i].on)->Ok_0.0),
{
    lemma_no_repeat_is_distinct(target.process_names());
    lemma_no_repeat_is_distinct(target.service_names());
    lemma_first_where(
        target.processes.len() as int,
        |j: int| repeats(target.process_names(), j),
    );
    lemma_first_where(target.services.len() as int, |j: int| repeats(target.service_names(), j));
    let faulty = |j: int| service_fault(target.services[j]) is Some;
    lemma_first_where(target.services.len() as int, faulty);
    assert forall|i: int| 0 <= i < target.services.len() implies (#[trigger] host_and_port(
        target.services[i].on,
    )) is Ok && service_ip(host_and_port(target.services[i].on)->Ok_0.0) by {
        assert(!faulty(i));
    }
}

/// The empty target is accepted.
pub proof fn lemma_empty_target_valid()
    ensures
        valid_target(crate::config::empty_target()),
{
    let t = crate::config::empty_target();
    lemma_first_where(0, |j: int| repeats(t.process_names(), j));
    lemma_first_where(0, |j: int| repeats(t.service_names(), j));
    lemma_first_where(0, |j: int| service_fault(t.services[j]) is Some);
}

/// The position of the first name that repeats an earlier one.
fn first_repeat(names: &Vec<String>) -> (r: Option<usize>)
    ensures
        match r {
            Some(j) => j < names.len() && j == repeat_position(names.deep_view()),
            None => repeat_position(names.deep_view()) == names.len(),
        },
{
    let ghost all = names.deep_view();
    let ghost hit = |j: int| repeats(all, j);
    let mut j: usize = 0;
    while j < names.len()
        invariant
            j <= names.len(),
            all == names.deep_view(),
            hit == (|j: int| repeats(all, j)),
            forall|k: int| 0 <= k < j ==> !#[trigger] hit(k),
        decreases names.len() - j,
    {
        let mut i: usize = 0;
        while i < j
            invariant
                i <= j < names.len(),
                all == names.deep_view(),
                hit == (|j: int| repeats(all, j)),
                forall|k: int| 0 <= k < j ==> !#[trigger] hit(k),
                forall|k: int| 0 <= k < i ==> all[k] != all[j as int],
            decreases j - i,
        {
            if names[i] == names[j] {
                proof {
                    assert(all[i as int] == all[j as int]);
                    assert(repeats(all, j as int));
                    assert(hit(j as int));
                    lemma_first_is(0, all.len() as int, hit, j as int);
                }
                return Some(j);
            }
            i += 1;
        }
        assert(!hit(j as int));
        j += 1;
    }
    proof {
        lemma_first_is(0, all.len() as int, hit, j as int);
    }
    None
}

impl HujingzhiTarget {
    /// The process names, in order.
    pub fn process_names(&self) -> (names: Vec<String>)
        ensures
            names.deep_view() == self@.process_names(),
    {
        let mut names: Vec<String> = Vec::new();
        let mut i: usize = 0;
        while i < self.processes.len()
            invariant
                i <= self.processes.len(),
                names.deep_view() == self@.process_names().take(i as int),
            decreases self.processes.len() - i,
        {
            let ghost before = names.deep_view();
            names.push(self.processes[i].name.clone());
            assert(self@.processes[i as int] == self.processes[i as int]@);
            assert(names.deep_view() =~= before.push(self.processes[i as int].name@));
            assert(self@.process_names().take(i as int + 1) =~= self@.process_names().take(
                i as int,
            ).push(self.processes[i as int].name@));
            i += 1;
        }
        assert(self@.process_names().take(i as int) =~= self@.process_names());
        names
    }

    /// The service names, in order.
    pub fn service_names(&self) -> (names: Vec<String>)
        ensures
            names.deep_view() == self@.service_names(),
    {
        let mut names: Vec<String> = Vec::new();
        let mut i: usize = 0;
        while i < self.services.len()
            invariant
                i <= self.services.len(),
                names.deep_view() == self@.service_names().take(i as int),
            decreases self.services.len() - i,
        {
            let ghost before = names.deep_view();
            names.push(self.services[i].name.clone());
            assert(self@.services[i as int] == self.services[i as int]@);
            assert(names.deep_view() =~= before.push(self.services[i as int].name@));
            assert(self@.service_names().take(i as int + 1) =~= self@.service_names().take(
                i as int,
            ).push(self.services[i as int].name@));
            i += 1;
        }
        assert(self@.service_names().take(i as int) =~= self@.service_names());
        names
    }
}

/// Checks one service's address.
fn check_service(service: &ServiceSpec) -> (r: Option<TargetError>)
    ensures
        r is Some == service_fault(service@) is Some,
        r is Some ==> r->0@ == service_fault(service@)->0,
{
    match parse_host_and_port(service.on.as_str()) {
        Err(error) => Some(TargetError::Address { service: service.name.clone(), error }),
        Ok(pair) => {
            if is_service_ip(pair.0.as_str()) {
                None
            } else {
                Some(TargetError::InvalidIp { service: service.name.clone(), host: pair.0 })
            }
        },
    }
}

/// Decides whether `target` is accepted, and if not, why.
pub fn validate_target(target: &HujingzhiTarget) -> (r: Result<(), TargetError>)
    ensures
        match r {
            Ok(_) => validation(target@) == Ok::<(), TargetErrorView>(()),
            Err(e) => validation(target@) == Err::<(), TargetErrorView>(e@),
        },
        r is Ok ==> target@.process_names().no_duplicates()
            && target@.service_names().no_duplicates(),
{
    let process_names = target.process_names();
    match first_repeat(&process_names) {
        Some(j) => {
            assert(target@.processes[j as int] == target.processes[j as int]@);
            return Err(
                TargetError::DuplicateName {
                    name: target.processes[j].name.clone(),
                    field: NameField::Processes,
                },
            );
        },
        None => {},
    }
    let service_names = target.service_names();
    match first_repeat(&service_names) {
        Some(j) => {
            assert(target@.services[j as int] == target.services[j as int]@);
            return Err(
                TargetError::DuplicateName {
                    name: target.services[j].name.clone(),
                    field: NameField::Services,
                },
            );
        },
        None => {},
    }
    let ghost faulty = |j: int| service_fault(target@.services[j]) is Some;
    let mut i: usize = 0;
    while i < target.services.len()
        invariant
            i <= target.services.len(),
            faulty == (|j: int| service_fault(target@.services[j]) is Some),
            forall|k: int| 0 <= k < i ==> !#[trigger] faulty(k),
            repeat_position(target@.process_names()) == target@.processes.len(),
            repeat_position(target@.service_names()) == target@.services.len(),
        decreases target.services.len() - i,
    {
        assert(target@.services[i as int] == target.services[i as int]@);
        match check_service(&target.services[i]) {
            Some(e) => {
                proof {
                    lemma_first_is(0, target@.services.len() as int, faulty, i as int);
                }
                return Err(e);
            },
            None => {},
        }
        i += 1;
    }
    proof {
        lemma_first_is(0, target@.services.len() as int, faulty, i as int);
        lemma_no_repeat_is_distinct(target@.process_names());
        lemma_no_repeat_is_distinct(target@.service_names());
    }
    Ok(())
}

} // verus!

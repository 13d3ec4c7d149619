//! The declarative target: which processes should run and which virtual
//! services should exist, with the rules a target must meet to be accepted.
use crate::search::{first_where, lemma_first_is, lemma_first_where};
use crate::text::{clone_option_string, clone_strings, option_string_equal, strings_equal};
use vstd::prelude::*;

verus! {

/// Where the admin endpoint listens, and the half-open range of loopback
/// ports that children may be given.
#[derive(Debug, PartialEq, Eq)]
pub struct ServerConfig {
    pub admin_host: String,
    pub admin_port: u16,
    pub loopback_ports: (u16, u16),
}

impl Clone for ServerConfig {
    fn clone(&self) -> (r: Self)
        ensures
            r.admin_host@ == self.admin_host@,
            r.admin_port == self.admin_port,
            r.loopback_ports == self.loopback_ports,
    {
        ServerConfig {
            admin_host: self.admin_host.clone(),
            admin_port: self.admin_port,
            loopback_ports: (self.loopback_ports.0, self.loopback_ports.1),
        }
    }
}

/// The supervisor's own configuration.
#[derive(Debug, PartialEq, Eq)]
pub struct HujingzhiConfig {
    pub server: ServerConfig,
}

impl Clone for HujingzhiConfig {
    fn clone(&self) -> (r: Self)
        ensures
            r.server.admin_host@ == self.server.admin_host@,
            r.server.admin_port == self.server.admin_port,
            r.server.loopback_ports == self.server.loopback_ports,
    {
        HujingzhiConfig { server: self.server.clone() }
    }
}

/// One virtual service: a name and the loopback `ip:port` it is bound to.
#[derive(Debug, PartialEq, Eq)]
pub struct ServiceSpec {
    pub name: String,
    pub on: String,
}

/// `ServiceSpec` as contracts see it.
pub struct ServiceSpecView {
    pub name: Seq<char>,
    pub on: Seq<char>,
}

impl View for ServiceSpec {
    type V = ServiceSpecView;

    open spec fn view(&self) -> ServiceSpecView {
        ServiceSpecView { name: self.name@, on: self.on@ }
    }
}

impl DeepView for ServiceSpec {
    type V = ServiceSpecView;

    open spec fn deep_view(&self) -> ServiceSpecView {
        self@
    }
}

impl Clone for ServiceSpec {
    fn clone(&self) -> (r: Self)
        ensures
            r@ == self@,
    {
        ServiceSpec { name: self.name.clone(), on: self.on.clone() }
    }
}

impl ServiceSpec {
    /// Structural equality.
    pub fn same_as(&self, other: &ServiceSpec) -> (r: bool)
        ensures
            r == (self@ == other@),
    {
        self.name == other.name && self.on == other.on
    }
}

/// How a process is probed: an HTTP path on the port of one of its services.
#[derive(Debug, PartialEq, Eq)]
pub struct HealthCheckSpec {
    pub service: String,
    pub path: String,
}

/// `HealthCheckSpec` as contracts see it.
pub struct HealthCheckSpecView {
    pub service: Seq<char>,
    pub path: Seq<char>,
}

impl View for HealthCheckSpec {
    type V = HealthCheckSpecView;

    open spec fn view(&self) -> HealthCheckSpecView {
        HealthCheckSpecView { service: self.service@, path: self.path@ }
    }
}

impl DeepView for HealthCheckSpec {
    type V = HealthCheckSpecView;

    open spec fn deep_view(&self) -> HealthCheckSpecView {
        self@
    }
}

impl Clone for HealthCheckSpec {
    fn clone(&self) -> (r: Self)
        ensures
            r@ == self@,
    {
        HealthCheckSpec { service: self.service.clone(), path: self.path.clone() }
    }
}

/// A user or group, by number or by name.
#[derive(Debug, PartialEq, Eq)]
pub enum Identity {
    Id(u32),
    Name(String),
}

/// `Identity` as contracts see it.
pub enum IdentityView {
    Id(u32),
    Name(Seq<char>),
}

impl View for Identity {
    type V = IdentityView;

    open spec fn view(&self) -> IdentityView {
        match self {
            Identity::Id(n) => IdentityView::Id(*n),
            Identity::Name(s) => IdentityView::Name(s@),
        }
    }
}

impl DeepView for Identity {
    type V = IdentityView;

    open spec fn deep_view(&self) -> IdentityView {
        self@
    }
}

impl Clone for Identity {
    fn clone(&self) -> (r: Self)
        ensures
            r@ == self@,
    {
        match self {
            Identity::Id(n) => Identity::Id(*n),
            Identity::Name(s) => Identity::Name(s.clone()),
        }
    }
}

/// Whether two optional identities agree.
fn identity_equal(a: &Option<Identity>, b: &Option<Identity>) -> (r: bool)
    ensures
        r == (a.deep_view() == b.deep_view()),
{
    match (a, b) {
        (None, None) => true,
        (Some(Identity::Id(x)), Some(Identity::Id(y))) => *x == *y,
        (Some(Identity::Name(x)), Some(Identity::Name(y))) => *x == *y,
        _ => false,
    }
}

/// Copies an optional identity.
fn clone_identity(a: &Option<Identity>) -> (r: Option<Identity>)
    ensures
        r.deep_view() == a.deep_view(),
{
    match a {
        None => None,
        Some(x) => Some(x.clone()),
    }
}

/// Whether two optional health checks agree.
fn health_equal(a: &Option<HealthCheckSpec>, b: &Option<HealthCheckSpec>) -> (r: bool)
    ensures
        r == (a.deep_view() == b.deep_view()),
{
    match (a, b) {
        (None, None) => true,
        (Some(x), Some(y)) => x.service == y.service && x.path == y.path,
        _ => false,
    }
}

/// Copies an optional health check.
fn clone_health(a: &Option<HealthCheckSpec>) -> (r: Option<HealthCheckSpec>)
    ensures
        r.deep_view() == a.deep_view(),
{
    match a {
        None => None,
        Some(x) => Some(x.clone()),
    }
}

/// Copies a list of variable bindings.
pub fn clone_bindings(v: &Vec<(String, String)>) -> (r: Vec<(String, String)>)
    ensures
        r.deep_view() == v.deep_view(),
{
    let mut r: Vec<(String, String)> = Vec::new();
    let mut i: usize = 0;
    while i < v.len()
        invariant
            i <= v.len(),
            r.deep_view() == v.deep_view().take(i as int),
        decreases v.len() - i,
    {
        let ghost before = r.deep_view();
        r.push((v[i].0.clone(), v[i].1.clone()));
        assert(r.deep_view() =~= before.push(v[i as int].deep_view()));
        assert(v.deep_view().take(i as int + 1) =~= v.deep_view().take(i as int).push(
            v[i as int].deep_view(),
        ));
        i += 1;
    }
    assert(v.deep_view().take(i as int) =~= v.deep_view());
    r
}

/// Whether two lists of variable bindings agree, position by position.
fn bindings_equal(a: &Vec<(String, String)>, b: &Vec<(String, String)>) -> (r: bool)
    ensures
        r == (a.deep_view() == b.deep_view()),
{
    if a.len() != b.len() {
        assert(a.deep_view().len() != b.deep_view().len());
        return false;
    }
    let mut i: usize = 0;
    while i < a.len()
        invariant
            i <= a.len(),
            a.len() == b.len(),
            forall|j: int| 0 <= j < i ==> a[j].deep_view() == b[j].deep_view(),
        decreases a.len() - i,
    {
        if !(a[i].0 == b[i].0 && a[i].1 == b[i].1) {
            assert(a.deep_view()[i as int] != b.deep_view()[i as int]);
            return false;
        }
        i += 1;
    }
    assert(a.deep_view() =~= b.deep_view());
    true
}

/// What to run for one process name. `env` lists the child's variables in
/// the order they are applied; `receives` names the services whose traffic
/// the child takes.
#[derive(Debug, PartialEq, Eq)]
pub struct ProcessSpec {
    pub name: String,
    pub command: Vec<String>,
    pub cwd: Option<String>,
    pub uid: Option<Identity>,
    pub gid: Option<Identity>,
    pub env: Vec<(String, String)>,
    pub receives: Vec<String>,
    pub health: Option<HealthCheckSpec>,
}

/// `ProcessSpec` as contracts see it.
pub struct ProcessSpecView {
    pub name: Seq<char>,
    pub command: Seq<Seq<char>>,
    pub cwd: Option<Seq<char>>,
    pub uid: Option<IdentityView>,
    pub gid: Option<IdentityView>,
    pub env: Seq<(Seq<char>, Seq<char>)>,
    pub receives: Seq<Seq<char>>,
    pub health: Option<HealthCheckSpecView>,
}

impl View for ProcessSpec {
    type V = ProcessSpecView;

    open spec fn view(&self) -> ProcessSpecView {
        ProcessSpecView {
            name: self.name@,
            command: self.command.deep_view(),
            cwd: self.cwd.deep_view(),
            uid: self.uid.deep_view(),
            gid: self.gid.deep_view(),
            env: self.env.deep_view(),
            receives: self.receives.deep_view(),
            health: self.health.deep_view(),
        }
    }
}

impl DeepView for ProcessSpec {
    type V = ProcessSpecView;

    open spec fn deep_view(&self) -> ProcessSpecView {
        self@
    }
}

impl Clone for ProcessSpec {
    fn clone(&self) -> (r: Self)
        ensures
            r@ == self@,
    {
        ProcessSpec {
            name: self.name.clone(),
            command: clone_strings(&self.command),
            cwd: clone_option_string(&self.cwd),
            uid: clone_identity(&self.uid),
            gid: clone_identity(&self.gid),
            env: clone_bindings(&self.env),
            receives: clone_strings(&self.receives),
            health: clone_health(&self.health),
        }
    }
}

impl ProcessSpec {
    /// Structural equality: every field agrees.
    pub fn same_as(&self, other: &ProcessSpec) -> (r: bool)
        ensures
            r == (self@ == other@),
    {
        self.name == other.name && strings_equal(&self.command, &other.command)
            && option_string_equal(&self.cwd, &other.cwd) && identity_equal(&self.uid, &other.uid)
            && identity_equal(&self.gid, &other.gid) && bindings_equal(&self.env, &other.env)
            && strings_equal(&self.receives, &other.receives) && health_equal(
            &self.health,
            &other.health,
        )
    }
}

/// The desired state: the processes to keep running and the virtual
/// services to keep bound.
#[derive(Debug, PartialEq, Eq)]
pub struct HujingzhiTarget {
    pub processes: Vec<ProcessSpec>,
    pub services: Vec<ServiceSpec>,
}

/// `HujingzhiTarget` as contracts see it.
pub struct HujingzhiTargetView {
    pub processes: Seq<ProcessSpecView>,
    pub services: Seq<ServiceSpecView>,
}

impl View for HujingzhiTarget {
    type V = HujingzhiTargetView;

    open spec fn view(&self) -> HujingzhiTargetView {
        HujingzhiTargetView {
            processes: self.processes.deep_view(),
            services: self.services.deep_view(),
        }
    }
}

impl DeepView for HujingzhiTarget {
    type V = HujingzhiTargetView;

    open spec fn deep_view(&self) -> HujingzhiTargetView {
        self@
    }
}

impl Clone for HujingzhiTarget {
    fn clone(&self) -> (r: Self)
        ensures
            r@ == self@,
    {
        let mut processes: Vec<ProcessSpec> = Vec::new();
        let mut i: usize = 0;
        while i < self.processes.len()
            invariant
                i <= self.processes.len(),
                processes.deep_view() == self.processes.deep_view().take(i as int),
            decreases self.processes.len() - i,
        {
            let ghost before = processes.deep_view();
            processes.push(self.processes[i].clone());
            assert(processes.deep_view() =~= before.push(self.processes[i as int]@));
            assert(self.processes.deep_view().take(i as int + 1)
                =~= self.processes.deep_view().take(i as int).push(self.processes[i as int]@));
            i += 1;
        }
        assert(self.processes.deep_view().take(i as int) =~= self.processes.deep_view());
        let mut services: Vec<ServiceSpec> = Vec::new();
        let mut k: usize = 0;
        while k < self.services.len()
            invariant
                k <= self.services.len(),
                services.deep_view() == self.services.deep_view().take(k as int),
            decreases self.services.len() - k,
        {
            let ghost before = services.deep_view();
            services.push(self.services[k].clone());
            assert(services.deep_view() =~= before.push(self.services[k as int]@));
            assert(self.services.deep_view().take(k as int + 1) =~= self.services.deep_view().take(
                k as int,
            ).push(self.services[k as int]@));
            k += 1;
        }
        assert(self.services.deep_view().take(k as int) =~= self.services.deep_view());
        HujingzhiTarget { processes, services }
    }
}

impl Default for HujingzhiTarget {
    /// The empty target: nothing to run, nothing to bind.
    fn default() -> (r: Self)
        ensures
            r@ == empty_target(),
    {
        let r = HujingzhiTarget { processes: Vec::new(), services: Vec::new() };
        assert(r@.processes =~= Seq::empty());
        assert(r@.services =~= Seq::empty());
        r
    }
}

/// The target with no process and no service.
pub open spec fn empty_target() -> HujingzhiTargetView {
    HujingzhiTargetView { processes: Seq::empty(), services: Seq::empty() }
}

impl HujingzhiTargetView {
    /// The process names, in order.
    pub open spec fn process_names(self) -> Seq<Seq<char>> {
        Seq::new(self.processes.len(), |i: int| self.processes[i].name)
    }

    /// The service names, in order.
    pub open spec fn service_names(self) -> Seq<Seq<char>> {
        Seq::new(self.services.len(), |i: int| self.services[i].name)
    }

    /// The position of the first process called `name`, or the number of
    /// processes when there is none.
    pub open spec fn process_position(self, name: Seq<char>) -> int {
        first_where(self.processes.len() as int, |j: int| self.process_named(name, j))
    }

    /// Whether the process at `j` is called `name`.
    pub open spec fn process_named(self, name: Seq<char>, j: int) -> bool {
        self.processes[j].name == name
    }

    /// Whether the service at `j` is called `name`.
    pub open spec fn service_named(self, name: Seq<char>, j: int) -> bool {
        self.services[j].name == name
    }

    /// The position of the first service called `name`, or the number of
    /// services when there is none.
    pub open spec fn service_position(self, name: Seq<char>) -> int {
        first_where(self.services.len() as int, |j: int| self.service_named(name, j))
    }

    /// What `process_position` returns: a position in range, with a
    /// process called `name` there and none before it.
    pub proof fn lemma_process_position(self, name: Seq<char>)
        ensures
            0 <= self.process_position(name) <= self.processes.len(),
            self.process_position(name) < self.processes.len() ==> self.processes[self.process_position(
                name,
            )].name == name,
            forall|j: int|
                0 <= j < self.process_position(name) ==> (#[trigger] self.processes[j]).name
                    != name,
    {
        let p = |j: int| self.process_named(name, j);
        lemma_first_where(self.processes.len() as int, p);
        assert forall|j: int| 0 <= j < self.process_position(name) implies (
        #[trigger] self.processes[j]).name != name by {
            assert(!p(j));
        }
    }

    /// What `service_position` returns: a position in range, with a
    /// service called `name` there and none before it.
    pub proof fn lemma_service_position(self, name: Seq<char>)
        ensures
            0 <= self.service_position(name) <= self.services.len(),
            self.service_position(name) < self.services.len() ==> self.services[self.service_position(
                name,
            )].name == name,
            forall|j: int|
                0 <= j < self.service_position(name) ==> (#[trigger] self.services[j]).name
                    != name,
    {
        let p = |j: int| self.service_named(name, j);
        lemma_first_where(self.services.len() as int, p);
        assert forall|j: int| 0 <= j < self.service_position(name) implies (
        #[trigger] self.services[j]).name != name by {
            assert(!p(j));
        }
    }
}

impl HujingzhiTarget {
    /// Whether the two targets agree in every process and service.
    pub fn same_as(&self, other: &HujingzhiTarget) -> (r: bool)
        ensures
            r == (self@ == other@),
    {
        if self.processes.len() != other.processes.len() || self.services.len()
            != other.services.len() {
            assert(self@.processes.len() != other@.processes.len() || self@.services.len()
                != other@.services.len());
            return false;
        }
        let mut i: usize = 0;
        while i < self.processes.len()
            invariant
                i <= self.processes.len(),
                self.processes.len() == other.processes.len(),
                forall|j: int| 0 <= j < i ==> self.processes[j]@ == other.processes[j]@,
            decreases self.processes.len() - i,
        {
            if !self.processes[i].same_as(&other.processes[i]) {
                assert(self@.processes[i as int] != other@.processes[i as int]);
                return false;
            }
            i += 1;
        }
        let mut k: usize = 0;
        while k < self.services.len()
            invariant
                k <= self.services.len(),
                self.services.len() == other.services.len(),
                forall|j: int| 0 <= j < k ==> self.services[j]@ == other.services[j]@,
            decreases self.services.len() - k,
        {
            if !self.services[k].same_as(&other.services[k]) {
                assert(self@.services[k as int] != other@.services[k as int]);
                return false;
            }
            k += 1;
        }
        assert(self@.processes =~= other@.processes);
        assert(self@.services =~= other@.services);
        true
    }

    /// The position of the first process called `name`.
    pub fn find_process(&self, name: &String) -> (r: Option<usize>)
        ensures
            match r {
                Some(i) => i == self@.process_position(name@) && i < self.processes.len(),
                None => self@.process_position(name@) == self.processes.len(),
            },
    {
        let ghost hit = |j: int| self@.process_named(name@, j);
        let mut i: usize = 0;
        while i < self.processes.len()
            invariant
                i <= self.processes.len(),
                hit == (|j: int| self@.process_named(name@, j)),
                forall|j: int| 0 <= j < i ==> !#[trigger] hit(j),
            decreases self.processes.len() - i,
        {
            assert(self@.processes[i as int] == self.processes[i as int]@);
            if self.processes[i].name == *name {
                proof {
                    lemma_first_is(0, self@.processes.len() as int, hit, i as int);
                }
                return Some(i);
            }
            i += 1;
        }
        proof {
            lemma_first_is(0, self@.processes.len() as int, hit, i as int);
        }
        None
    }

    /// The position of the first service called `name`.
    pub fn find_service(&self, name: &String) -> (r: Option<usize>)
        ensures
            match r {
                Some(i) => i == self@.service_position(name@) && i < self.services.len(),
                None => self@.service_position(name@) == self.services.len(),
            },
    {
        let ghost hit = |j: int| self@.service_named(name@, j);
        let mut i: usize = 0;
        while i < self.services.len()
            invariant
                i <= self.services.len(),
                hit == (|j: int| self@.service_named(name@, j)),
                forall|j: int| 0 <= j < i ==> !#[trigger] hit(j),
            decreases self.services.len() - i,
        {
            assert(self@.services[i as int] == self.services[i as int]@);
            if self.services[i].name == *name {
                proof {
                    lemma_first_is(0, self@.services.len() as int, hit, i as int);
                }
                return Some(i);
            }
            i += 1;
        }
        proof {
            lemma_first_is(0, self@.services.len() as int, hit, i as int);
        }
        None
    }
}

} // verus!

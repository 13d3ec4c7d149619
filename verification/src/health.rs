//! Health probing: which HTTP request tells whether a child is healthy, and
//! what each reply means.
use crate::config::{ProcessSpec, ProcessSpecView};
use crate::search::{first_where, lemma_first_is, lemma_first_where};
use crate::text::{chars_of, decimal, decimal_string};
use vstd::prelude::*;

verus! {

/// The position of the first binding for `service`, or the number of
/// bindings when there is none.
pub open spec fn binding_position(ports: Seq<(Seq<char>, u16)>, service: Seq<char>) -> int {
    first_where(ports.len() as int, |j: int| binds(ports, service, j))
}

/// Whether the binding at `j` is one for `service`.
pub open spec fn binds(ports: Seq<(Seq<char>, u16)>, service: Seq<char>, j: int) -> bool {
    ports[j].0 == service
}

/// What `binding_position` returns: a position in range, with a binding for
/// `service` there and none before it.
pub proof fn lemma_binding_position(ports: Seq<(Seq<char>, u16)>, service: Seq<char>)
    ensures
        0 <= binding_position(ports, service) <= ports.len(),
        binding_position(ports, service) < ports.len() ==> ports[binding_position(
            ports,
            service,
        )].0 == service,
        forall|j: int| 0 <= j < binding_position(ports, service) ==> (#[trigger] ports[j]).0 != service,
{
    let hit = |j: int| binds(ports, service, j);
    lemma_first_where(ports.len() as int, hit);
    assert(binding_position(ports, service) == first_where(ports.len() as int, hit));
    assert forall|j: int| 0 <= j < binding_position(ports, service) implies (#[trigger] ports[j]).0
        != service by {
        assert(!hit(j));
    }
}

/// The port bound to `service`, if any.
pub open spec fn bound_port(ports: Seq<(Seq<char>, u16)>, service: Seq<char>) -> Option<u16> {
    let i = binding_position(ports, service);
    if i < ports.len() {
        Some(ports[i].1)
    } else {
        None
    }
}

/// The map after `service` was bound to `port`: an earlier binding of the
/// service is replaced, a new one goes to the end.
pub open spec fn bind(ports: Seq<(Seq<char>, u16)>, service: Seq<char>, port: u16) -> Seq<
    (Seq<char>, u16),
> {
    let i = binding_position(ports, service);
    if i < ports.len() {
        ports.update(i, (service, port))
    } else {
        ports.push((service, port))
    }
}

/// The position of the first binding for `service`.
fn find_binding(ports: &Vec<(String, u16)>, service: &String) -> (r: Option<usize>)
    ensures
        match r {
            Some(i) => i < ports.len() && i == binding_position(ports.deep_view(), service@),
            None => binding_position(ports.deep_view(), service@) == ports.len(),
        },
{
    let ghost all = ports.deep_view();
    let ghost hit = |j: int| binds(all, service@, j);
    let mut i: usize = 0;
    while i < ports.len()
        invariant
            i <= ports.len(),
            all == ports.deep_view(),
            hit == (|j: int| binds(all, service@, j)),
            forall|j: int| 0 <= j < i ==> !#[trigger] hit(j),
        decreases ports.len() - i,
    {
        assert(all[i as int] == ports[i as int].deep_view());
        if ports[i].0 == *service {
            proof {
                lemma_first_is(0, all.len() as int, hit, i as int);
            }
            return Some(i);
        }
        i += 1;
    }
    proof {
        lemma_first_is(0, all.len() as int, hit, i as int);
    }
    None
}

/// The port bound to `service`, if any.
pub fn port_of(ports: &Vec<(String, u16)>, service: &String) -> (port: Option<u16>)
    ensures
        port == bound_port(ports.deep_view(), service@),
{
    match find_binding(ports, service) {
        Some(i) => {
            assert(ports.deep_view()[i as int] == ports[i as int].deep_view());
            Some(ports[i].1)
        },
        None => None,
    }
}

/// Binds `service` to `port`, replacing an earlier binding of the service.
pub fn bind_port(ports: &mut Vec<(String, u16)>, service: String, port: u16)
    ensures
        final(ports).deep_view() == bind(old(ports).deep_view(), service@, port),
{
    let ghost before = ports.deep_view();
    match find_binding(ports, &service) {
        Some(i) => {
            ports[i].1 = port;
            assert(ports.deep_view() =~= before.update(i as int, (service@, port))) by {
                lemma_binding_position(before, service@);
                assert(before[i as int].0 == service@);
            }
        },
        None => {
            ports.push((service, port));
            assert(ports.deep_view() =~= before.push((service@, port)));
        },
    }
}

/// The path as probed: a `/` is put in front when the path has none.
pub open spec fn probe_path(path: Seq<char>) -> Seq<char> {
    if path.len() > 0 && path[0] == '/' {
        path
    } else {
        "/"@ + path
    }
}

/// The address a child on `port` is probed at.
pub open spec fn probe_url(port: u16, path: Seq<char>) -> Seq<char> {
    "http://127.0.0.1:"@ + decimal(port as nat) + probe_path(path)
}

/// The probed path always begins with `/`.
pub proof fn lemma_probe_path_has_slash(path: Seq<char>)
    ensures
        probe_path(path).len() > 0,
        probe_path(path)[0] == '/',
{
    reveal_strlit("/");
}

/// How to learn whether a child is healthy.
#[derive(Debug, PartialEq, Eq)]
pub enum HealthPlan {
    /// The spec names no health check: the child counts as healthy.
    Healthy,
    /// Issue an HTTP GET to `url`.
    Probe { url: String },
    /// The health check names a service the child holds no port for.
    MissingPort { service: String },
}

/// `HealthPlan` as contracts see it.
pub enum HealthPlanView {
    Healthy,
    Probe { url: Seq<char> },
    MissingPort { service: Seq<char> },
}

impl View for HealthPlan {
    type V = HealthPlanView;

    open spec fn view(&self) -> HealthPlanView {
        match self {
            HealthPlan::Healthy => HealthPlanView::Healthy,
            HealthPlan::Probe { url } => HealthPlanView::Probe { url: url@ },
            HealthPlan::MissingPort { service } => HealthPlanView::MissingPort {
                service: service@,
            },
        }
    }
}

/// The plan for probing a child of `spec` that holds `ports`.
pub open spec fn health_plan(spec: ProcessSpecView, ports: Seq<(Seq<char>, u16)>) -> HealthPlanView {
    match spec.health {
        None => HealthPlanView::Healthy,
        Some(check) => match bound_port(ports, check.service) {
            None => HealthPlanView::MissingPort { service: check.service },
            Some(port) => HealthPlanView::Probe { url: probe_url(port, check.path) },
        },
    }
}

/// Decides how to probe a child of `process_spec` that holds `ports`.
pub fn health_check(process_spec: &ProcessSpec, ports: &Vec<(String, u16)>) -> (plan: HealthPlan)
    ensures
        plan@ == health_plan(process_spec@, ports.deep_view()),
{
    match &process_spec.health {
        None => HealthPlan::Healthy,
        Some(check) => {
            match port_of(ports, &check.service) {
                None => HealthPlan::MissingPort { service: check.service.clone() },
                Some(port) => {
                    let path = chars_of(check.path.as_str());
                    let url = "http://127.0.0.1:".to_owned().concat(
                        decimal_string(port as u64).as_str(),
                    );
                    let url = if path.len() > 0 && path[0] == '/' {
                        url.concat(check.path.as_str())
                    } else {
                        url.concat("/").concat(check.path.as_str())
                    };
                    assert(url@ =~= probe_url(port, check.path@));
                    HealthPlan::Probe { url }
                },
            }
        },
    }
}

/// What came back from a probe.
#[derive(Debug, PartialEq, Eq)]
pub enum ProbeReply {
    /// An HTTP response with this status code.
    Status { code: u16 },
    /// The connection could not be made: nothing listens yet.
    ConnectionFailed,
    /// Any other transport failure.
    Failed { message: String },
}

/// `ProbeReply` as contracts see it.
pub enum ProbeReplyView {
    Status { code: u16 },
    ConnectionFailed,
    Failed { message: Seq<char> },
}

impl View for ProbeReply {
    type V = ProbeReplyView;

    open spec fn view(&self) -> ProbeReplyView {
        match self {
            ProbeReply::Status { code } => ProbeReplyView::Status { code: *code },
            ProbeReply::ConnectionFailed => ProbeReplyView::ConnectionFailed,
            ProbeReply::Failed { message } => ProbeReplyView::Failed { message: message@ },
        }
    }
}

/// What a reply says of the child: healthy exactly on a status of the 2xx
/// class, unhealthy on any other status or a failed connection, and an
/// error on any other failure.
pub open spec fn verdict(reply: ProbeReplyView) -> Result<bool, Seq<char>> {
    match reply {
        ProbeReplyView::Status { code } => Ok(200 <= code < 300),
        ProbeReplyView::ConnectionFailed => Ok(false),
        ProbeReplyView::Failed { message } => Err(message),
    }
}

/// Judges a probe's reply.
pub fn health_verdict(reply: ProbeReply) -> (r: Result<bool, String>)
    ensures
        match r {
            Ok(healthy) => verdict(reply@) == Ok::<bool, Seq<char>>(healthy),
            Err(message) => verdict(reply@) == Err::<bool, Seq<char>>(message@),
        },
{
    match reply {
        ProbeReply::Status { code } => Ok(200 <= code && code < 300),
        ProbeReply::ConnectionFailed => Ok(false),
        ProbeReply::Failed { message } => Err(message),
    }
}

} // verus!

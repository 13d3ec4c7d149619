//! The control surface: the four requests a client may make, and what the
//! supervisor answers to each.
use crate::config::{HujingzhiTarget, HujingzhiTargetView, ProcessSpecView};
use crate::events::{get_entire_log, LogEvent, LogEventView, ProcessStatus};
use crate::ipvs::{IpvsState, IpvsStateView};
use crate::process::{EntryView, ProcessSet, ProcessSetView};
use crate::state::{Cursor, CursorView, GlobalState, StateView};
use crate::text::{decimal, decimal_string, signed_decimal, signed_decimal_string};
use crate::validation::{TargetError, TargetErrorView, validate_target, validation};
use vstd::prelude::*;

verus! {

/// What a client may ask.
#[derive(Debug, PartialEq, Eq)]
pub enum ClientRequest {
    Ping,
    GetTarget,
    SetTarget { target: String },
    Status,
}

/// `ClientRequest` as contracts see it.
pub enum ClientRequestView {
    Ping,
    GetTarget,
    SetTarget { target: Seq<char> },
    Status,
}

impl View for ClientRequest {
    type V = ClientRequestView;

    open spec fn view(&self) -> ClientRequestView {
        match self {
            ClientRequest::Ping => ClientRequestView::Ping,
            ClientRequest::GetTarget => ClientRequestView::GetTarget,
            ClientRequest::SetTarget { target } => ClientRequestView::SetTarget {
                target: target@,
            },
            ClientRequest::Status => ClientRequestView::Status,
        }
    }
}

/// What the supervisor answers.
#[allow(inconsistent_fields)]
#[derive(Debug, PartialEq, Eq)]
pub enum ClientResponse {
    Pong,
    Success { message: Option<String> },
    Target { target: String },
    Error { message: String },
    Status { events: Vec<LogEvent>, status: String, ipvs_state: Option<IpvsState> },
}

/// `ClientResponse` as contracts see it.
#[allow(inconsistent_fields)]
pub enum ClientResponseView {
    Pong,
    Success { message: Option<Seq<char>> },
    Target { target: Seq<char> },
    Error { message: Seq<char> },
    Status { events: Seq<LogEventView>, status: Seq<char>, ipvs_state: Option<IpvsStateView> },
}

impl View for ClientResponse {
    type V = ClientResponseView;

    open spec fn view(&self) -> ClientResponseView {
        match self {
            ClientResponse::Pong => ClientResponseView::Pong,
            ClientResponse::Success { message } => ClientResponseView::Success {
                message: message.deep_view(),
            },
            ClientResponse::Target { target } => ClientResponseView::Target { target: target@ },
            ClientResponse::Error { message } => ClientResponseView::Error { message: message@ },
            ClientResponse::Status { events, status, ipvs_state } => ClientResponseView::Status {
                events: events.deep_view(),
                status: status@,
                ipvs_state: ipvs_state.deep_view(),
            },
        }
    }
}

/// Why a request got no answer of its own.
#[derive(Debug, PartialEq, Eq)]
pub enum RequestError {
    /// The text of a `SetTarget` request came without its parsed form.
    NotParsed,
    /// The target is not accepted.
    InvalidTarget { error: TargetError },
    /// A pass is under way: the target cannot change until it ends.
    Busy,
}

/// `RequestError` as contracts see it.
pub enum RequestErrorView {
    NotParsed,
    InvalidTarget { error: TargetErrorView },
    Busy,
}

impl View for RequestError {
    type V = RequestErrorView;

    open spec fn view(&self) -> RequestErrorView {
        match self {
            RequestError::NotParsed => RequestErrorView::NotParsed,
            RequestError::InvalidTarget { error } => RequestErrorView::InvalidTarget {
                error: error@,
            },
            RequestError::Busy => RequestErrorView::Busy,
        }
    }
}

impl RequestErrorView {
    /// The text shown to the client.
    pub open spec fn message(self) -> Seq<char> {
        match self {
            RequestErrorView::NotParsed => "Target was not parsed"@,
            RequestErrorView::InvalidTarget { error } => error.message(),
            RequestErrorView::Busy => "A reconciliation pass is under way"@,
        }
    }
}

impl RequestError {
    /// The text shown to the client.
    pub fn message(&self) -> (s: String)
        ensures
            s@ == self@.message(),
    {
        match self {
            RequestError::NotParsed => "Target was not parsed".to_owned(),
            RequestError::InvalidTarget { error } => error.message(),
            RequestError::Busy => "A reconciliation pass is under way".to_owned(),
        }
    }

    /// The answer that tells the client of the failure.
    pub fn response(&self) -> (r: ClientResponse)
        ensures
            r@ == (ClientResponseView::Error { message: self@.message() }),
    {
        ClientResponse::Error { message: self.message() }
    }
}

/// How a status reads in the status report.
pub open spec fn status_text(status: ProcessStatus) -> Seq<char> {
    match status {
        ProcessStatus::Starting => "Starting"@,
        ProcessStatus::Running => "Running"@,
        ProcessStatus::Unhealthy => "Unhealthy"@,
        ProcessStatus::Sunsetting => "Sunsetting"@,
        ProcessStatus::Exited { exit_status, approx_time } => "Exited { exit_status: "@
            + signed_decimal(exit_status as int) + ", approx_time: "@ + decimal(approx_time as nat)
            + " }"@,
    }
}

/// The line of one child in the status report.
pub open spec fn entry_line(entry: EntryView) -> Seq<char> {
    "  "@ + entry.name + ": ("@ + status_text(entry.status) + ")\n"@
}

/// The lines of the children of one set, oldest first.
pub open spec fn version_lines(versions: Seq<(ProcessSpecView, EntryView)>) -> Seq<char>
    decreases versions.len(),
{
    if versions.len() == 0 {
        Seq::empty()
    } else {
        version_lines(versions.drop_last()) + entry_line(versions.last().1)
    }
}

/// The part of the status report on one set: its name, then its children.
pub open spec fn set_lines(set: ProcessSetView) -> Seq<char> {
    set.name + ":\n"@ + version_lines(set.running_versions)
}

/// The status report: each set in turn.
pub open spec fn status_report(sets: Seq<ProcessSetView>) -> Seq<char>
    decreases sets.len(),
{
    if sets.len() == 0 {
        Seq::empty()
    } else {
        status_report(sets.drop_last()) + set_lines(sets.last())
    }
}

/// Renders a status as it reads in the status report.
pub fn format_status(status: &ProcessStatus) -> (s: String)
    ensures
        s@ == status_text(*status),
{
    match status {
        ProcessStatus::Starting => "Starting".to_owned(),
        ProcessStatus::Running => "Running".to_owned(),
        ProcessStatus::Unhealthy => "Unhealthy".to_owned(),
        ProcessStatus::Sunsetting => "Sunsetting".to_owned(),
        ProcessStatus::Exited { exit_status, approx_time } => {
            "Exited { exit_status: ".to_owned().concat(
                signed_decimal_string(*exit_status).as_str(),
            ).concat(", approx_time: ").concat(decimal_string(*approx_time).as_str()).concat(" }")
        },
    }
}

/// Renders the status report of `sets`.
pub fn format_sets(sets: &Vec<ProcessSet>) -> (report: String)
    ensures
        report@ == status_report(sets.deep_view()),
{
    let ghost all = sets.deep_view();
    let mut report = String::new();
    let mut i: usize = 0;
    while i < sets.len()
        invariant
            i <= sets.len(),
            all == sets.deep_view(),
            report@ == status_report(all.take(i as int)),
        decreases sets.len() - i,
    {
        let set = &sets[i];
        let ghost versions = set@.running_versions;
        let ghost head = report@;
        report.append(set.name.as_str());
        report.append(":\n");
        let ghost opened = report@;
        let mut k: usize = 0;
        while k < set.running_versions.len()
            invariant
                k <= set.running_versions.len(),
                versions == set@.running_versions,
                report@ == opened + version_lines(versions.take(k as int)),
            decreases set.running_versions.len() - k,
        {
            let entry = &set.running_versions[k].1;
            let ghost before = report@;
            report.append("  ");
            report.append(entry.name.as_str());
            report.append(": (");
            report.append(format_status(&entry.status).as_str());
            report.append(")\n");
            proof {
                assert(versions[k as int] == set.running_versions[k as int].deep_view());
                assert(versions.take(k as int + 1).drop_last() =~= versions.take(k as int));
                assert(versions.take(k as int + 1).last() == versions[k as int]);
                assert(report@ =~= before + entry_line(entry@));
                assert(report@ =~= opened + (version_lines(versions.take(k as int)) + entry_line(
                    entry@,
                )));
            }
            k += 1;
        }
        proof {
            assert(versions.take(k as int) =~= versions);
            assert(all[i as int] == set@);
            assert(all.take(i as int + 1).drop_last() =~= all.take(i as int));
            assert(all.take(i as int + 1).last() == all[i as int]);
            assert(report@ =~= head + set_lines(set@));
        }
        i += 1;
    }
    assert(all.take(i as int) =~= all);
    report
}

/// The message of a `SetTarget` that changed the target.
pub open spec fn target_updated() -> Seq<char> {
    "Target updated"@
}

/// The message of a `SetTarget` that changed nothing.
pub open spec fn no_changes() -> Seq<char> {
    "(no changes made)"@
}

/// What a request leads to: the state afterwards and the answer. `parsed`
/// is the parsed form of the text of a `SetTarget` request. Only an
/// accepted target, between passes, replaces the current one; the running
/// versions are never touched.
pub open spec fn handled(
    s: StateView,
    request: ClientRequestView,
    parsed: Option<HujingzhiTargetView>,
) -> (StateView, Result<ClientResponseView, RequestErrorView>) {
    match request {
        ClientRequestView::Ping => (s, Ok(ClientResponseView::Pong)),
        ClientRequestView::GetTarget => (
            s,
            Ok(ClientResponseView::Target { target: s.target_text }),
        ),
        ClientRequestView::SetTarget { target: text } => match parsed {
            None => (s, Err(RequestErrorView::NotParsed)),
            Some(target) => match validation(target) {
                Err(error) => (s, Err(RequestErrorView::InvalidTarget { error })),
                Ok(_) => if s.cursor != CursorView::Idle {
                    (s, Err(RequestErrorView::Busy))
                } else {
                    (
                        StateView { target_text: text, target, ..s },
                        Ok(
                            ClientResponseView::Success {
                                message: Some(
                                    if s.target == target {
                                        no_changes()
                                    } else {
                                        target_updated()
                                    },
                                ),
                            },
                        ),
                    )
                },
            },
        },
        ClientRequestView::Status => (
            s,
            Ok(
                ClientResponseView::Status {
                    events: s.log,
                    status: status_report(s.processes_by_name),
                    ipvs_state: s.last_ipvs_state,
                },
            ),
        ),
    }
}

impl GlobalState {
    /// Decides whether `target` is accepted, and if not, why.
    pub fn validate_target(target: &HujingzhiTarget) -> (r: Result<(), TargetError>)
        ensures
            match r {
                Ok(_) => validation(target@) == Ok::<(), TargetErrorView>(()),
                Err(e) => validation(target@) == Err::<(), TargetErrorView>(e@),
            },
    {
        validate_target(target)
    }

    /// Answers one request. `parsed` is the parsed form of the text of a
    /// `SetTarget` request, and is not looked at for the others.
    pub fn handle_rest_request(
        &mut self,
        request: ClientRequest,
        parsed: Option<HujingzhiTarget>,
    ) -> (r: Result<ClientResponse, RequestError>)
        requires
            old(self)@.wf(),
        ensures
            final(self)@.wf(),
            final(self)@ == handled(old(self)@, request@, parsed.deep_view()).0,
            match r {
                Ok(response) => handled(old(self)@, request@, parsed.deep_view()).1 == Ok::<
                    ClientResponseView,
                    RequestErrorView,
                >(response@),
                Err(error) => handled(old(self)@, request@, parsed.deep_view()).1 == Err::<
                    ClientResponseView,
                    RequestErrorView,
                >(error@),
            },
    {
        match request {
            ClientRequest::Ping => Ok(ClientResponse::Pong),
            ClientRequest::GetTarget => Ok(
                ClientResponse::Target { target: self.target_text.clone() },
            ),
            ClientRequest::SetTarget { target: target_text } => {
                let target = match parsed {
                    None => {
                        return Err(RequestError::NotParsed);
                    },
                    Some(target) => target,
                };
                match validate_target(&target) {
                    Err(error) => {
                        return Err(RequestError::InvalidTarget { error });
                    },
                    Ok(_) => {},
                }
                match self.cursor {
                    Cursor::Idle => {},
                    _ => {
                        return Err(RequestError::Busy);
                    },
                }
                let changed = !self.target.same_as(&target);
                self.target_text = target_text;
                self.target = target;
                let message = if changed {
                    "Target updated".to_owned()
                } else {
                    "(no changes made)".to_owned()
                };
                Ok(ClientResponse::Success { message: Some(message) })
            },
            ClientRequest::Status => {
                let ipvs_state = match &self.last_ipvs_state {
                    None => None,
                    Some(state) => Some(state.clone()),
                };
                Ok(
                    ClientResponse::Status {
                        events: get_entire_log(&self.log),
                        status: format_sets(&self.processes_by_name),
                        ipvs_state,
                    },
                )
            },
        }
    }
}

/// A `SetTarget` never touches the running versions, and when the new
/// target equals the current one it reports that nothing changed.
pub proof fn lemma_same_target_changes_nothing(
    s: StateView,
    text: Seq<char>,
    target: HujingzhiTargetView,
)
    requires
        s.wf(),
        s.cursor == CursorView::Idle,
        target == s.target,
    ensures
        handled(s, ClientRequestView::SetTarget { target: text }, Some(target)).1 == Ok::<
            ClientResponseView,
            RequestErrorView,
        >(ClientResponseView::Success { message: Some(no_changes()) }),
        handled(s, ClientRequestView::SetTarget { target: text }, Some(target)).0 == (StateView {
            target_text: text,
            ..s
        }),
{
}

/// No request touches the running versions or the port pool.
pub proof fn lemma_requests_leave_processes(
    s: StateView,
    request: ClientRequestView,
    parsed: Option<HujingzhiTargetView>,
)
    ensures
        handled(s, request, parsed).0.processes_by_name == s.processes_by_name,
        handled(s, request, parsed).0.free == s.free,
        handled(s, request, parsed).0.allocated == s.allocated,
        handled(s, request, parsed).0.log == s.log,
{
}

} // verus!

//! Running a relay: the helper, a port for each target, and then as long as the
//! container is up.

use super::helper::{
    binary_of, detect_helper, detect_helper_on, detect_next, passes_half_close, probe_args,
    probe_hits, probe_order, DetectStep, DetectStepView, Helper,
};
use super::port::{
    pick_host_port, pick_host_port_on, port_next, tried, try_fits, Bound, PortStep, Try,
};
use super::state::{
    copy_mappings, mapping, mapping_of, record_file, record_path, report, report_lines, state_of,
    Host, HostView, Mapping, MappingView, State, StateView,
};
use super::stop::{
    stop, stop_answers, stop_next, stop_on, stop_request, stop_start, StopReply, StopRequest,
    StopRequestView, StopState, StopStep, StopStepView,
};
use super::{Error, ErrorView};
use crate::devcontainer::{Devcontainer, DevcontainerView, PortForwardView};
use crate::docker::container::{container_running, container_running_args, running_args, stated};
use crate::docker::{captured_text, run_docker_text, Container};
use crate::request::{utf8_lossy, Outcome, OutcomeView, Reply, Request, RequestView};
use crate::text::trimmed;
use vstd::prelude::*;

verus! {

/// The container ports of the targets.
pub open spec fn target_ports(targets: Seq<PortForwardView>) -> Seq<u16> {
    targets.map_values(|t: PortForwardView| t.container_port)
}

/// The error of a container without a helper.
pub fn no_helper(dc: &Devcontainer) -> (r: Error)
    ensures
        r.deep_view() == ErrorView::NoHelper(target_ports(dc.deep_view().forward_ports)),
{
    let ghost list = dc.forward_ports.deep_view();
    let ghost port = |t: PortForwardView| t.container_port;
    let mut ports: Vec<u16> = Vec::new();
    let mut i: usize = 0;
    while i < dc.forward_ports.len()
        invariant
            list == dc.forward_ports.deep_view(),
            port == (|t: PortForwardView| t.container_port),
            i <= dc.forward_ports.len(),
            ports@ == list.take(i as int).map_values(port),
        decreases dc.forward_ports.len() - i,
    {
        let ghost had = ports@;
        ports.push(dc.forward_ports[i].container_port);
        assert(list[i as int] == dc.forward_ports@[i as int].deep_view());
        assert(ports@ == had.push(port(list[i as int])));
        i += 1;
        assert(ports@ == list.take(i as int).map_values(port));
    }
    assert(list.take(i as int) == list);
    Error::NoHelper(ports)
}

/// What is said of a helper that holds a client's half-close back.
pub open spec fn helper_text(helper: Helper) -> Seq<char> {
    "\x1b[33mdevcon:\x1b[0m forwarding via "@ + binary_of(helper)
        + " — it can't signal end-of-request, so a server that reads until EOF will hang. Add socat to the image to avoid this."@
}

/// The warning of a helper that holds a client's half-close back. Better to
/// say so up front than to have someone debug a hang later.
pub fn helper_warning(helper: Helper) -> (r: Option<String>)
    ensures
        r.deep_view() == if passes_half_close(helper) {
            None
        } else {
            Some(helper_text(helper))
        },
{
    if helper.half_closes() {
        return None;
    }
    let mut r: String = "\x1b[33mdevcon:\x1b[0m forwarding via ".to_owned();
    r.append(helper.binary());
    r.append(
        " — it can't signal end-of-request, so a server that reads until EOF will hang. Add socat to the image to avoid this.",
    );
    Some(r)
}

// ---------------------------------------------------------------------------
// What is said
// ---------------------------------------------------------------------------

/// What is said where no ports are declared.
pub open spec fn nothing_text() -> Seq<char> {
    "\x1b[36mdevcon:\x1b[0m no forwardPorts declared — nothing to forward."@
}

/// What is said where the state of the relay could not be recorded.
pub open spec fn unrecorded_text(why: Seq<char>) -> Seq<char> {
    "\x1b[33mdevcon:\x1b[0m could not record forward state: "@ + why
}

/// What is said at the end.
pub open spec fn ended_text() -> Seq<char> {
    "\x1b[36mdevcon:\x1b[0m container stopped — port forwarding ended."@
}

/// One line.
fn one_line(line: String) -> (r: Vec<String>)
    ensures
        r.deep_view() == seq![line@],
{
    let ghost text = line@;
    let mut r: Vec<String> = Vec::new();
    r.push(line);
    assert(r.deep_view() == seq![text]);
    r
}

// ---------------------------------------------------------------------------
// The run
// ---------------------------------------------------------------------------

/// A piece of work to be done outside.
#[derive(Debug)]
pub enum RelayRequest {
    /// Probe for a helper, or for whether the container is up.
    Probe(Request),
    /// Listen on this loopback port; 0 is whatever is free.
    Bind(u16),
    /// Say these lines.
    Say(Vec<String>),
    /// Record the state of the relay.
    Record { path: String, state: State },
    /// Accept connections on every port that was bound, in the order of the
    /// mappings, and hand each to the helper.
    Serve { helper: Helper, mappings: Vec<Mapping> },
    /// Wait a while.
    Pause,
    /// What tearing the relay down asks for.
    Stop(StopRequest),
}

/// A [`RelayRequest`] as plain values.
#[verifier::ext_equal]
pub enum RelayRequestView {
    Probe(RequestView),
    Bind(u16),
    Say(Seq<Seq<char>>),
    Record { path: Seq<char>, state: StateView },
    Serve { helper: Helper, mappings: Seq<MappingView> },
    Pause,
    Stop(StopRequestView),
}

impl DeepView for RelayRequest {
    type V = RelayRequestView;

    open spec fn deep_view(&self) -> RelayRequestView {
        match self {
            RelayRequest::Probe(q) => RelayRequestView::Probe(q.deep_view()),
            RelayRequest::Bind(port) => RelayRequestView::Bind(*port),
            RelayRequest::Say(lines) => RelayRequestView::Say(lines.deep_view()),
            RelayRequest::Record { path, state } => RelayRequestView::Record {
                path: path@,
                state: state.deep_view(),
            },
            RelayRequest::Serve { helper, mappings } => RelayRequestView::Serve {
                helper: *helper,
                mappings: mappings.deep_view(),
            },
            RelayRequest::Pause => RelayRequestView::Pause,
            RelayRequest::Stop(q) => RelayRequestView::Stop(q.deep_view()),
        }
    }
}

/// The answer to a [`RelayRequest`].
#[derive(Debug)]
pub enum RelayReply {
    /// To [`RelayRequest::Probe`].
    Probed(Outcome),
    /// To [`RelayRequest::Bind`]: the port that is listened on, or why it
    /// cannot be told.
    Bound(Result<u16, String>),
    /// To [`RelayRequest::Bind`]: the port could not be bound.
    NotBound(Bound),
    /// To [`RelayRequest::Record`].
    Recorded(Result<(), String>),
    /// To [`RelayRequest::Stop`].
    Stopped(StopReply),
    /// To any other request.
    Done,
}

/// What is being waited for.
#[derive(Debug)]
pub enum RelayState {
    /// It to be said that there is nothing to forward.
    Idle,
    /// Whether the helper of an index is there.
    Detecting(usize),
    /// The warning of a helper to be said.
    Warning { helper: Helper },
    /// A port for the next target; the mappings of those before it.
    Binding { helper: Helper, mappings: Vec<Mapping>, at: Try },
    /// The state to be recorded.
    Recording { helper: Helper, mappings: Vec<Mapping> },
    /// It to be said why it could not be.
    Unrecorded { helper: Helper, mappings: Vec<Mapping>, why: String },
    /// The mappings to be reported.
    Reporting { helper: Helper, mappings: Vec<Mapping> },
    /// The ports to be served.
    Serving { helper: Helper, mappings: Vec<Mapping> },
    /// Whether the container is still up.
    Watching,
    /// A while to pass.
    Pausing,
    /// It to be said that the container has stopped.
    Ending,
    /// The relay to be torn down.
    Stopping(StopState),
}

/// A [`RelayState`] as plain values.
#[verifier::ext_equal]
pub enum RelayStateView {
    Idle,
    Detecting(int),
    Warning { helper: Helper },
    Binding { helper: Helper, mappings: Seq<MappingView>, at: Try },
    Recording { helper: Helper, mappings: Seq<MappingView> },
    Unrecorded { helper: Helper, mappings: Seq<MappingView>, why: Seq<char> },
    Reporting { helper: Helper, mappings: Seq<MappingView> },
    Serving { helper: Helper, mappings: Seq<MappingView> },
    Watching,
    Pausing,
    Ending,
    Stopping(StopState),
}

impl DeepView for RelayState {
    type V = RelayStateView;

    open spec fn deep_view(&self) -> RelayStateView {
        match self {
            RelayState::Idle => RelayStateView::Idle,
            RelayState::Detecting(i) => RelayStateView::Detecting(*i as int),
            RelayState::Warning { helper } => RelayStateView::Warning { helper: *helper },
            RelayState::Binding { helper, mappings, at } => RelayStateView::Binding {
                helper: *helper,
                mappings: mappings.deep_view(),
                at: *at,
            },
            RelayState::Recording { helper, mappings } => RelayStateView::Recording {
                helper: *helper,
                mappings: mappings.deep_view(),
            },
            RelayState::Unrecorded { helper, mappings, why } => RelayStateView::Unrecorded {
                helper: *helper,
                mappings: mappings.deep_view(),
                why: why@,
            },
            RelayState::Reporting { helper, mappings } => RelayStateView::Reporting {
                helper: *helper,
                mappings: mappings.deep_view(),
            },
            RelayState::Serving { helper, mappings } => RelayStateView::Serving {
                helper: *helper,
                mappings: mappings.deep_view(),
            },
            RelayState::Watching => RelayStateView::Watching,
            RelayState::Pausing => RelayStateView::Pausing,
            RelayState::Ending => RelayStateView::Ending,
            RelayState::Stopping(at) => RelayStateView::Stopping(*at),
        }
    }
}

/// Where running a relay stands.
#[derive(Debug)]
pub enum RelayStep {
    /// Do what is asked for, then go on from the state with the answer.
    Wait(RelayRequest, RelayState),
    /// The relay has ended, or could not be set up.
    Done(Result<(), Error>),
}

/// A [`RelayStep`] as plain values.
#[verifier::ext_equal]
pub enum RelayStepView {
    Wait(RelayRequestView, RelayStateView),
    Done(Result<(), ErrorView>),
}

impl DeepView for RelayStep {
    type V = RelayStepView;

    open spec fn deep_view(&self) -> RelayStepView {
        match self {
            RelayStep::Wait(q, at) => RelayStepView::Wait(q.deep_view(), at.deep_view()),
            RelayStep::Done(Ok(_)) => RelayStepView::Done(Ok(())),
            RelayStep::Done(Err(e)) => RelayStepView::Done(Err(e.deep_view())),
        }
    }
}

/// What a relay is run for: the project, its container and the host.
#[verifier::ext_equal]
pub struct RelayView {
    pub dc: DevcontainerView,
    pub id: Seq<char>,
    pub host: HostView,
}

/// Where the state of the relay is kept.
pub open spec fn kept_at(r: RelayView) -> Option<Seq<char>> {
    record_path(r.host, r.dc.project_root)
}

/// What a state speaks of is there.
pub open spec fn relay_state_fits(r: RelayView, at: RelayStateView) -> bool {
    match at {
        RelayStateView::Detecting(i) => 0 <= i < probe_order().len(),
        RelayStateView::Binding { mappings, at, .. } => {
            &&& mappings.len() < r.dc.forward_ports.len()
            &&& try_fits(r.dc.forward_ports[mappings.len() as int].desired_host_port, at)
        },
        RelayStateView::Recording { .. } => kept_at(r) is Some,
        RelayStateView::Stopping(_) => kept_at(r) is Some,
        _ => true,
    }
}

/// What a state waits for.
pub open spec fn relay_request(r: RelayView, at: RelayStateView) -> RelayRequestView {
    match at {
        RelayStateView::Idle => RelayRequestView::Say(seq![nothing_text()]),
        RelayStateView::Detecting(i) => RelayRequestView::Probe(
            RequestView::Capture(probe_args(r.id, probe_order()[i])),
        ),
        RelayStateView::Warning { helper } => RelayRequestView::Say(seq![helper_text(helper)]),
        RelayStateView::Binding { mappings, at, .. } => RelayRequestView::Bind(
            tried(r.dc.forward_ports[mappings.len() as int].desired_host_port, at),
        ),
        RelayStateView::Recording { mappings, .. } => RelayRequestView::Record {
            path: kept_at(r)->Some_0,
            state: state_of(r.host.pid, r.id, mappings),
        },
        RelayStateView::Unrecorded { why, .. } => RelayRequestView::Say(
            seq![unrecorded_text(why)],
        ),
        RelayStateView::Reporting { mappings, .. } => RelayRequestView::Say(
            report_lines(mappings),
        ),
        RelayStateView::Serving { helper, mappings } => RelayRequestView::Serve {
            helper,
            mappings,
        },
        RelayStateView::Watching => RelayRequestView::Probe(
            RequestView::Capture(running_args(r.id)),
        ),
        RelayStateView::Pausing => RelayRequestView::Pause,
        RelayStateView::Ending => RelayRequestView::Say(seq![ended_text()]),
        RelayStateView::Stopping(at) => RelayRequestView::Stop(
            stop_request(kept_at(r)->Some_0, at),
        ),
    }
}

/// A reply of the kind that a state waits for.
pub open spec fn relay_answers(reply: RelayReply, at: RelayStateView) -> bool {
    match at {
        RelayStateView::Detecting(_) => reply is Probed,
        RelayStateView::Watching => reply is Probed,
        RelayStateView::Binding { .. } => match reply {
            RelayReply::Bound(_) => true,
            RelayReply::NotBound(bound) => !(bound is Yes),
            _ => false,
        },
        RelayStateView::Recording { .. } => reply is Recorded,
        RelayStateView::Stopping(at) => reply matches RelayReply::Stopped(reply) && stop_answers(
            reply,
            at,
        ),
        _ => reply is Done,
    }
}

/// The relay waits in a state.
pub open spec fn relay_wait(r: RelayView, at: RelayStateView) -> RelayStepView {
    RelayStepView::Wait(relay_request(r, at), at)
}

/// The container is up, by how asking for it went.
pub open spec fn is_up(id: Seq<char>, outcome: OutcomeView) -> bool {
    stated(captured_text(running_args(id), outcome)) == Some("true"@)
}

/// Every target has a port: the relay is recorded, if its state is kept
/// anywhere, and reported.
pub open spec fn to_record(
    r: RelayView,
    helper: Helper,
    mappings: Seq<MappingView>,
) -> RelayStepView {
    if kept_at(r) is Some {
        relay_wait(r, RelayStateView::Recording { helper, mappings })
    } else {
        relay_wait(r, RelayStateView::Reporting { helper, mappings })
    }
}

/// The next target gets a port.
pub open spec fn to_binding(
    r: RelayView,
    helper: Helper,
    mappings: Seq<MappingView>,
) -> RelayStepView {
    if mappings.len() < r.dc.forward_ports.len() {
        relay_wait(r, RelayStateView::Binding { helper, mappings, at: Try::Desired })
    } else {
        to_record(r, helper, mappings)
    }
}

/// The look for a helper goes on, or is over. One that holds a client's
/// half-close back is warned of.
pub open spec fn to_helper(r: RelayView, step: DetectStepView) -> RelayStepView {
    match step {
        DetectStepView::Wait(_, i) => relay_wait(r, RelayStateView::Detecting(i)),
        DetectStepView::Done(Some(helper)) => if passes_half_close(helper) {
            to_binding(r, helper, seq![])
        } else {
            relay_wait(r, RelayStateView::Warning { helper })
        },
        DetectStepView::Done(None) => RelayStepView::Done(
            Err(ErrorView::NoHelper(target_ports(r.dc.forward_ports))),
        ),
    }
}

/// A target has a port, or there is none for it yet.
pub open spec fn to_bound(
    r: RelayView,
    helper: Helper,
    mappings: Seq<MappingView>,
    at: Try,
    reply: RelayReply,
) -> RelayStepView {
    let target = r.dc.forward_ports[mappings.len() as int];
    match reply {
        RelayReply::Bound(Ok(port)) => to_binding(
            r,
            helper,
            mappings.push(mapping_of(target, port)),
        ),
        RelayReply::Bound(Err(why)) => RelayStepView::Done(Err(ErrorView::Io(why@))),
        _ => match port_next(target.desired_host_port, at, reply->NotBound_0) {
            PortStep::Bind(_, at) => relay_wait(
                r,
                RelayStateView::Binding { helper, mappings, at },
            ),
            failed => RelayStepView::Done(Err(ErrorView::Io(failed->Failed_0@))),
        },
    }
}

/// Tearing the relay down goes on; when it is over, so is the run.
pub open spec fn to_stop(r: RelayView, step: StopStepView) -> RelayStepView {
    match step {
        StopStepView::Wait(_, at) => relay_wait(r, RelayStateView::Stopping(at)),
        StopStepView::Done => RelayStepView::Done(Ok(())),
    }
}

/// The first step.
pub open spec fn relay_start(r: RelayView) -> RelayStepView {
    if r.dc.forward_ports.len() == 0 {
        relay_wait(r, RelayStateView::Idle)
    } else {
        relay_wait(r, RelayStateView::Detecting(0))
    }
}

/// The step from a state with the answer that it waited for.
pub open spec fn relay_next(r: RelayView, at: RelayStateView, reply: RelayReply) -> RelayStepView {
    match at {
        RelayStateView::Idle => RelayStepView::Done(Ok(())),
        RelayStateView::Detecting(i) => to_helper(
            r,
            detect_next(r.id, i, Reply::Ran(reply->Probed_0).deep_view()),
        ),
        RelayStateView::Warning { helper } => to_binding(r, helper, seq![]),
        RelayStateView::Binding { helper, mappings, at } => to_bound(
            r,
            helper,
            mappings,
            at,
            reply,
        ),
        RelayStateView::Recording { helper, mappings } => match reply->Recorded_0 {
            Ok(_) => relay_wait(r, RelayStateView::Reporting { helper, mappings }),
            Err(why) => relay_wait(
                r,
                RelayStateView::Unrecorded { helper, mappings, why: why@ },
            ),
        },
        RelayStateView::Unrecorded { helper, mappings, .. } => relay_wait(
            r,
            RelayStateView::Reporting { helper, mappings },
        ),
        RelayStateView::Reporting { helper, mappings } => relay_wait(
            r,
            RelayStateView::Serving { helper, mappings },
        ),
        RelayStateView::Serving { .. } => relay_wait(r, RelayStateView::Watching),
        RelayStateView::Watching => if is_up(r.id, reply->Probed_0.deep_view()) {
            relay_wait(r, RelayStateView::Pausing)
        } else {
            relay_wait(r, RelayStateView::Ending)
        },
        RelayStateView::Pausing => relay_wait(r, RelayStateView::Watching),
        RelayStateView::Ending => to_stop(r, stop_start(kept_at(r))),
        RelayStateView::Stopping(at) => to_stop(
            r,
            stop_next(kept_at(r)->Some_0, r.host.pid, at, reply->Stopped_0),
        ),
    }
}

/// What a relay is run for, as plain values.
pub open spec fn relay_of(dc: Devcontainer, container: Container, host: Host) -> RelayView {
    RelayView { dc: dc.deep_view(), id: container.id@, host: host.deep_view() }
}

/// A step that waits does so in a state that fits.
pub open spec fn relay_fits(r: RelayView, step: RelayStepView) -> bool {
    step matches RelayStepView::Wait(_, at) ==> relay_state_fits(r, at)
}

/// Say something in a state.
fn say(line: String, at: RelayState) -> (step: RelayStep)
    ensures
        step.deep_view() == RelayStepView::Wait(
            RelayRequestView::Say(seq![line@]),
            at.deep_view(),
        ),
{
    RelayStep::Wait(RelayRequest::Say(one_line(line)), at)
}

/// Report the mappings.
fn report_step(helper: Helper, mappings: Vec<Mapping>) -> (step: RelayStep)
    ensures
        forall|r: RelayView|
            step.deep_view() == #[trigger] relay_wait(
                r,
                RelayStateView::Reporting { helper, mappings: mappings.deep_view() },
            ),
{
    RelayStep::Wait(
        RelayRequest::Say(report(&mappings)),
        RelayState::Reporting { helper, mappings },
    )
}

/// Record the relay, if its state is kept anywhere, or else report it.
fn record_step(
    dc: &Devcontainer,
    container: &Container,
    host: &Host,
    helper: Helper,
    mappings: Vec<Mapping>,
) -> (step: RelayStep)
    ensures
        step.deep_view() == to_record(
            relay_of(*dc, *container, *host),
            helper,
            mappings.deep_view(),
        ),
        relay_fits(relay_of(*dc, *container, *host), step.deep_view()),
{
    match record_file(host, dc) {
        Some(path) => {
            let state = State::of(host.pid, container, copy_mappings(&mappings));
            RelayStep::Wait(
                RelayRequest::Record { path, state },
                RelayState::Recording { helper, mappings },
            )
        },
        None => {
            let step = report_step(helper, mappings);
            assert(step.deep_view() == to_record(
                relay_of(*dc, *container, *host),
                helper,
                mappings.deep_view(),
            ));
            step
        },
    }
}

/// Bind a port for the next target.
fn bind_step(
    dc: &Devcontainer,
    container: &Container,
    host: &Host,
    helper: Helper,
    mappings: Vec<Mapping>,
) -> (step: RelayStep)
    ensures
        step.deep_view() == to_binding(
            relay_of(*dc, *container, *host),
            helper,
            mappings.deep_view(),
        ),
        relay_fits(relay_of(*dc, *container, *host), step.deep_view()),
{
    assert(mappings.deep_view().len() == mappings.len());
    if mappings.len() < dc.forward_ports.len() {
        let target = &dc.forward_ports[mappings.len()];
        assert(dc.deep_view().forward_ports[mappings.len() as int] == target.deep_view());
        if let PortStep::Bind(port, at) = pick_host_port(target.desired_host_port) {
            return RelayStep::Wait(
                RelayRequest::Bind(port),
                RelayState::Binding { helper, mappings, at },
            );
        }
    }
    record_step(dc, container, host, helper, mappings)
}

/// Go on with the look for a helper, or with the one that was found.
fn helper_step(dc: &Devcontainer, container: &Container, host: &Host, step: DetectStep) -> (next:
    RelayStep)
    requires
        step matches DetectStep::Wait(q, i) ==> i < probe_order().len() && q.deep_view()
            == RequestView::Capture(probe_args(container.id@, probe_order()[i as int])),
    ensures
        next.deep_view() == to_helper(relay_of(*dc, *container, *host), step.deep_view()),
        relay_fits(relay_of(*dc, *container, *host), next.deep_view()),
{
    match step {
        DetectStep::Wait(request, i) => RelayStep::Wait(
            RelayRequest::Probe(request),
            RelayState::Detecting(i),
        ),
        DetectStep::Done(Some(helper)) => match helper_warning(helper) {
            Some(line) => say(line, RelayState::Warning { helper }),
            None => {
                let none: Vec<Mapping> = Vec::new();
                assert(none.deep_view() == Seq::<MappingView>::empty());
                bind_step(dc, container, host, helper, none)
            },
        },
        DetectStep::Done(None) => RelayStep::Done(Err(no_helper(dc))),
    }
}

/// Go on with tearing the relay down.
fn stop_step(dc: &Devcontainer, container: &Container, host: &Host, step: StopStep) -> (next:
    RelayStep)
    requires
        step.deep_view() matches StopStepView::Wait(q, at) ==> {
            let r = relay_of(*dc, *container, *host);
            kept_at(r) is Some && q == stop_request(kept_at(r)->Some_0, at)
        },
    ensures
        next.deep_view() == to_stop(relay_of(*dc, *container, *host), step.deep_view()),
        relay_fits(relay_of(*dc, *container, *host), next.deep_view()),
{
    match step {
        StopStep::Wait(request, at) => RelayStep::Wait(
            RelayRequest::Stop(request),
            RelayState::Stopping(at),
        ),
        StopStep::Done => RelayStep::Done(Ok(())),
    }
}

/// Go on with the port of a target, by how binding one went.
fn bound_step(
    dc: &Devcontainer,
    container: &Container,
    host: &Host,
    helper: Helper,
    mappings: Vec<Mapping>,
    at: Try,
    reply: RelayReply,
) -> (step: RelayStep)
    requires
        relay_state_fits(
            relay_of(*dc, *container, *host),
            RelayStateView::Binding { helper, mappings: mappings.deep_view(), at },
        ),
        relay_answers(
            reply,
            RelayStateView::Binding { helper, mappings: mappings.deep_view(), at },
        ),
    ensures
        step.deep_view() == to_bound(
            relay_of(*dc, *container, *host),
            helper,
            mappings.deep_view(),
            at,
            reply,
        ),
        relay_fits(relay_of(*dc, *container, *host), step.deep_view()),
{
    assert(mappings.deep_view().len() == mappings.len());
    let target = &dc.forward_ports[mappings.len()];
    assert(dc.deep_view().forward_ports[mappings.len() as int] == target.deep_view());
    match reply {
        RelayReply::Bound(Ok(port)) => {
            let ghost had = mappings.deep_view();
            let mut mappings = mappings;
            let one = mapping(target, port);
            mappings.push(one);
            assert(mappings.deep_view() == had.push(one.deep_view()));
            bind_step(dc, container, host, helper, mappings)
        },
        RelayReply::Bound(Err(why)) => RelayStep::Done(Err(Error::Io(why))),
        RelayReply::NotBound(bound) => match pick_host_port_on(
            target.desired_host_port,
            at,
            bound,
        ) {
            PortStep::Bind(port, at) => RelayStep::Wait(
                RelayRequest::Bind(port),
                RelayState::Binding { helper, mappings, at },
            ),
            PortStep::Failed(why) => RelayStep::Done(Err(Error::Io(why))),
            PortStep::Taken => RelayStep::Done(Ok(())),
        },
        _ => RelayStep::Done(Ok(())),
    }
}

/// Run the relay until the container goes away: the first step.
///
/// A helper is looked for in the container, then each target gets a port.
/// Once all of them have one, the relay is recorded and reported, and serves
/// its ports for as long as the container is up. Outliving the container would
/// leave listeners accepting into nothing, so then the relay is torn down.
pub fn run(dc: &Devcontainer, container: &Container, host: &Host) -> (step: RelayStep)
    ensures
        step.deep_view() == relay_start(relay_of(*dc, *container, *host)),
        relay_fits(relay_of(*dc, *container, *host), step.deep_view()),
{
    if dc.forward_ports.is_empty() {
        return say(
            "\x1b[36mdevcon:\x1b[0m no forwardPorts declared — nothing to forward.".to_owned(),
            RelayState::Idle,
        );
    }
    helper_step(dc, container, host, detect_helper(container))
}

/// Go on with running the relay from a state, with the answer that it waited
/// for.
pub fn run_on(
    dc: &Devcontainer,
    container: &Container,
    host: &Host,
    at: RelayState,
    reply: RelayReply,
) -> (step: RelayStep)
    requires
        relay_state_fits(relay_of(*dc, *container, *host), at.deep_view()),
        relay_answers(reply, at.deep_view()),
    ensures
        step.deep_view() == relay_next(relay_of(*dc, *container, *host), at.deep_view(), reply),
        relay_fits(relay_of(*dc, *container, *host), step.deep_view()),
{
    let ghost r = relay_of(*dc, *container, *host);
    match at {
        RelayState::Idle => RelayStep::Done(Ok(())),
        RelayState::Detecting(i) => {
            if let RelayReply::Probed(outcome) = reply {
                let step = detect_helper_on(container, i, Reply::Ran(outcome));
                helper_step(dc, container, host, step)
            } else {
                RelayStep::Done(Ok(()))
            }
        },
        RelayState::Warning { helper } => {
            let none: Vec<Mapping> = Vec::new();
            assert(none.deep_view() == Seq::<MappingView>::empty());
            bind_step(dc, container, host, helper, none)
        },
        RelayState::Binding { helper, mappings, at } => bound_step(
            dc,
            container,
            host,
            helper,
            mappings,
            at,
            reply,
        ),
        RelayState::Recording { helper, mappings } => {
            if let RelayReply::Recorded(Err(why)) = reply {
                let mut line: String =
                    "\x1b[33mdevcon:\x1b[0m could not record forward state: ".to_owned();
                line.append(why.as_str());
                say(line, RelayState::Unrecorded { helper, mappings, why })
            } else {
                report_step(helper, mappings)
            }
        },
        RelayState::Unrecorded { helper, mappings, .. } => report_step(helper, mappings),
        RelayState::Reporting { helper, mappings } => {
            let request = RelayRequest::Serve { helper, mappings: copy_mappings(&mappings) };
            RelayStep::Wait(request, RelayState::Serving { helper, mappings })
        },
        RelayState::Serving { .. } => watch_step(container),
        RelayState::Watching => {
            if let RelayReply::Probed(outcome) = reply {
                let args = container_running_args(container);
                if container_running(&run_docker_text(&args, outcome)) {
                    return RelayStep::Wait(RelayRequest::Pause, RelayState::Pausing);
                }
            }
            say(
                "\x1b[36mdevcon:\x1b[0m container stopped — port forwarding ended.".to_owned(),
                RelayState::Ending,
            )
        },
        RelayState::Pausing => watch_step(container),
        RelayState::Ending => stop_step(dc, container, host, stop(dc, host)),
        RelayState::Stopping(at) => {
            if let RelayReply::Stopped(reply) = reply {
                stop_step(dc, container, host, stop_on(dc, host, at, reply))
            } else {
                RelayStep::Done(Ok(()))
            }
        },
    }
}

/// Ask whether the container is still up.
fn watch_step(container: &Container) -> (step: RelayStep)
    ensures
        step.deep_view() == RelayStepView::Wait(
            RelayRequestView::Probe(RequestView::Capture(running_args(container.id@))),
            RelayStateView::Watching,
        ),
{
    RelayStep::Wait(
        RelayRequest::Probe(Request::Capture(container_running_args(container))),
        RelayState::Watching,
    )
}

// ---------------------------------------------------------------------------
// Laws
// ---------------------------------------------------------------------------

/// Mappings belong to the first targets, one each and in order.
pub open spec fn maps(mappings: Seq<MappingView>, targets: Seq<PortForwardView>) -> bool {
    &&& mappings.len() <= targets.len()
    &&& forall|i: int|
        0 <= i < mappings.len() ==> #[trigger] mappings[i] == mapping_of(
            targets[i],
            mappings[i].host_port,
        )
}

/// Mappings belong to the targets, one each and in order.
pub open spec fn maps_all(mappings: Seq<MappingView>, targets: Seq<PortForwardView>) -> bool {
    maps(mappings, targets) && mappings.len() == targets.len()
}

/// Where the run stands after the given answers.
pub open spec fn relay_run(
    r: RelayView,
    step: RelayStepView,
    replies: Seq<RelayReply>,
) -> RelayStepView
    decreases replies.len(),
{
    match step {
        RelayStepView::Wait(_, at) => if replies.len() == 0 {
            step
        } else {
            relay_run(r, relay_next(r, at, replies[0]), replies.skip(1))
        },
        RelayStepView::Done(_) => step,
    }
}

/// What the run asks for on the way there, in order. The `i`-th request is the
/// one that the `i`-th answer is to.
pub open spec fn relay_asked(
    r: RelayView,
    step: RelayStepView,
    replies: Seq<RelayReply>,
) -> Seq<RelayRequestView>
    decreases replies.len(),
{
    match step {
        RelayStepView::Wait(request, at) => if replies.len() == 0 {
            seq![request]
        } else {
            seq![request] + relay_asked(r, relay_next(r, at, replies[0]), replies.skip(1))
        },
        RelayStepView::Done(_) => seq![],
    }
}

/// What a step holds belongs to the targets, and it asks for what its state
/// waits for.
spec fn on_course(r: RelayView, step: RelayStepView) -> bool {
    match step {
        RelayStepView::Wait(request, at) => {
            &&& request == relay_request(r, at)
            &&& match at {
                RelayStateView::Binding { mappings, .. } => maps(mappings, r.dc.forward_ports)
                    && mappings.len() < r.dc.forward_ports.len(),
                RelayStateView::Recording { mappings, .. } => maps_all(
                    mappings,
                    r.dc.forward_ports,
                ) && kept_at(r) is Some,
                RelayStateView::Unrecorded { mappings, .. } => maps_all(
                    mappings,
                    r.dc.forward_ports,
                ),
                RelayStateView::Reporting { mappings, .. } => maps_all(
                    mappings,
                    r.dc.forward_ports,
                ),
                RelayStateView::Serving { mappings, .. } => maps_all(mappings, r.dc.forward_ports),
                RelayStateView::Stopping(_) => kept_at(r) is Some,
                RelayStateView::Idle => r.dc.forward_ports.len() == 0,
                _ => true,
            }
        },
        RelayStepView::Done(_) => true,
    }
}

proof fn lemma_next_on_course(r: RelayView, step: RelayStepView, reply: RelayReply)
    requires
        on_course(r, step),
        step is Wait,
    ensures
        on_course(r, relay_next(r, step->Wait_1, reply)),
{
    match step->Wait_1 {
        RelayStateView::Binding { mappings, .. } => {
            if let RelayReply::Bound(Ok(port)) = reply {
                let target = r.dc.forward_ports[mappings.len() as int];
                assert(maps(mappings.push(mapping_of(target, port)), r.dc.forward_ports));
            }
        },
        _ => {},
    }
}

proof fn lemma_on_course(r: RelayView, step: RelayStepView, replies: Seq<RelayReply>)
    requires
        on_course(r, step),
    ensures
        on_course(r, relay_run(r, step, replies)),
    decreases replies.len(),
{
    if step is Wait && replies.len() > 0 {
        lemma_next_on_course(r, step, replies[0]);
        lemma_on_course(r, relay_next(r, step->Wait_1, replies[0]), replies.skip(1));
    }
}

/// A relay serves, and records, every target: one mapping each, in order, with
/// the target's own host and port. The record also holds the relay's own
/// process and its container, and is kept where the project's state belongs.
pub proof fn law_every_target_is_mapped(r: RelayView, replies: Seq<RelayReply>)
    ensures
        match relay_run(r, relay_start(r), replies) {
            RelayStepView::Wait(RelayRequestView::Serve { mappings, .. }, _) => maps_all(
                mappings,
                r.dc.forward_ports,
            ),
            RelayStepView::Wait(RelayRequestView::Record { path, state }, _) => {
                &&& kept_at(r) == Some(path)
                &&& state.pid == r.host.pid
                &&& state.container_id == r.id
                &&& maps_all(state.mappings, r.dc.forward_ports)
            },
            _ => true,
        },
{
    lemma_on_course(r, relay_start(r), replies);
}

/// Each answer is of the kind that the run waits for.
pub open spec fn answered_in_kind(
    r: RelayView,
    step: RelayStepView,
    replies: Seq<RelayReply>,
) -> bool
    decreases replies.len(),
{
    match step {
        RelayStepView::Wait(_, at) => replies.len() == 0 || (relay_answers(replies[0], at)
            && answered_in_kind(r, relay_next(r, at, replies[0]), replies.skip(1))),
        RelayStepView::Done(_) => true,
    }
}

/// The ports that were bound, in order.
pub open spec fn bound_ports(replies: Seq<RelayReply>) -> Seq<u16>
    decreases replies.len(),
{
    if replies.len() == 0 {
        seq![]
    } else {
        let rest = bound_ports(replies.skip(1));
        match replies[0] {
            RelayReply::Bound(Ok(port)) => seq![port] + rest,
            _ => rest,
        }
    }
}

/// The host ports of mappings.
pub open spec fn host_ports(mappings: Seq<MappingView>) -> Seq<u16> {
    mappings.map_values(|m: MappingView| m.host_port)
}

/// The mappings that a step holds, up to when they are served.
spec fn held(step: RelayStepView) -> Option<Seq<MappingView>> {
    match step {
        RelayStepView::Wait(_, RelayStateView::Detecting(_)) => Some(seq![]),
        RelayStepView::Wait(_, RelayStateView::Warning { .. }) => Some(seq![]),
        RelayStepView::Wait(_, RelayStateView::Binding { mappings, .. }) => Some(mappings),
        RelayStepView::Wait(_, RelayStateView::Recording { mappings, .. }) => Some(mappings),
        RelayStepView::Wait(_, RelayStateView::Unrecorded { mappings, .. }) => Some(mappings),
        RelayStepView::Wait(_, RelayStateView::Reporting { mappings, .. }) => Some(mappings),
        RelayStepView::Wait(_, RelayStateView::Serving { mappings, .. }) => Some(mappings),
        _ => None,
    }
}

/// Mappings are not taken up again.
proof fn lemma_not_held_again(r: RelayView, step: RelayStepView, replies: Seq<RelayReply>)
    requires
        held(step) is None,
    ensures
        held(relay_run(r, step, replies)) is None,
    decreases replies.len(),
{
    if step is Wait && replies.len() > 0 {
        lemma_not_held_again(r, relay_next(r, step->Wait_1, replies[0]), replies.skip(1));
    }
}

proof fn lemma_bound_ports(r: RelayView, step: RelayStepView, replies: Seq<RelayReply>)
    requires
        answered_in_kind(r, step, replies),
        held(step) is Some,
        held(relay_run(r, step, replies)) is Some,
    ensures
        host_ports(held(relay_run(r, step, replies))->Some_0) == host_ports(held(step)->Some_0)
            + bound_ports(replies),
    decreases replies.len(),
{
    let had = host_ports(held(step)->Some_0);
    if replies.len() == 0 {
        assert(had + bound_ports(replies) == had);
    } else {
        let at = step->Wait_1;
        let next = relay_next(r, at, replies[0]);
        let rest = bound_ports(replies.skip(1));
        if held(next) is None {
            lemma_not_held_again(r, next, replies.skip(1));
        }
        lemma_bound_ports(r, next, replies.skip(1));
        let now = held(next)->Some_0;
        match replies[0] {
            RelayReply::Bound(Ok(port)) => {
                assert(host_ports(now) == had.push(port));
                assert(had.push(port) + rest == had + (seq![port] + rest));
            },
            _ => {
                assert(now == held(step)->Some_0);
            },
        }
    }
}

/// The ports that a relay records and serves are those that were really bound,
/// in order.
pub proof fn law_bound_ports_are_recorded(r: RelayView, replies: Seq<RelayReply>)
    requires
        answered_in_kind(r, relay_start(r), replies),
    ensures
        match relay_run(r, relay_start(r), replies) {
            RelayStepView::Wait(RelayRequestView::Serve { mappings, .. }, _) => host_ports(mappings)
                == bound_ports(replies),
            RelayStepView::Wait(RelayRequestView::Record { state, .. }, _) => host_ports(
                state.mappings,
            ) == bound_ports(replies),
            _ => true,
        },
{
    let end = relay_run(r, relay_start(r), replies);
    lemma_on_course(r, relay_start(r), replies);
    if end is Wait && (end->Wait_0 is Serve || end->Wait_0 is Record) {
        if held(relay_start(r)) is None {
            lemma_not_held_again(r, relay_start(r), replies);
        }
        lemma_bound_ports(r, relay_start(r), replies);
        assert(host_ports(Seq::<MappingView>::empty()) + bound_ports(replies) == bound_ports(
            replies,
        ));
    }
}

/// A run that has not come to the record yet, or is over.
spec fn setting_up(step: RelayStepView) -> bool {
    match step {
        RelayStepView::Wait(_, at) => at is Idle || at is Detecting || at is Warning || at is Binding,
        RelayStepView::Done(_) => true,
    }
}

/// From the record on, nothing fails.
proof fn lemma_set_up_holds(r: RelayView, step: RelayStepView, replies: Seq<RelayReply>)
    requires
        !setting_up(step),
    ensures
        !(relay_run(r, step, replies) matches RelayStepView::Done(Err(_))),
    decreases replies.len(),
{
    if replies.len() > 0 {
        let next = relay_next(r, step->Wait_1, replies[0]);
        if next is Wait {
            assert(!setting_up(next));
            lemma_set_up_holds(r, next, replies.skip(1));
        }
    }
}

proof fn lemma_failed_asks(r: RelayView, step: RelayStepView, replies: Seq<RelayReply>, i: int)
    requires
        on_course(r, step),
        relay_run(r, step, replies) matches RelayStepView::Done(Err(_)),
        0 <= i < relay_asked(r, step, replies).len(),
    ensures
        !(relay_asked(r, step, replies)[i] is Record),
    decreases replies.len(),
{
    if !setting_up(step) {
        lemma_set_up_holds(r, step, replies);
    }
    if replies.len() > 0 && i > 0 {
        let next = relay_next(r, step->Wait_1, replies[0]);
        lemma_next_on_course(r, step, replies[0]);
        assert(relay_asked(r, step, replies)[i] == relay_asked(r, next, replies.skip(1))[i - 1]);
        lemma_failed_asks(r, next, replies.skip(1), i - 1);
    }
}

/// A relay that cannot be set up records nothing.
pub proof fn law_failed_relay_records_nothing(r: RelayView, replies: Seq<RelayReply>, i: int)
    requires
        relay_run(r, relay_start(r), replies) matches RelayStepView::Done(Err(_)),
        0 <= i < relay_asked(r, relay_start(r), replies).len(),
    ensures
        !(relay_asked(r, relay_start(r), replies)[i] is Record),
{
    lemma_failed_asks(r, relay_start(r), replies, i);
}

/// The container was found not to be up, by the `i`-th answer.
pub open spec fn found_stopped(
    r: RelayView,
    asked: Seq<RelayRequestView>,
    replies: Seq<RelayReply>,
    i: int,
) -> bool {
    &&& 0 <= i < asked.len()
    &&& i < replies.len()
    &&& asked[i] == RelayRequestView::Probe(RequestView::Capture(running_args(r.id)))
    &&& !is_up(r.id, replies[i]->Probed_0.deep_view())
}

/// The container has not been found stopped yet.
spec fn still_up(step: RelayStepView) -> bool {
    match step {
        RelayStepView::Wait(_, at) => !(at is Idle || at is Ending || at is Stopping),
        RelayStepView::Done(end) => end is Err,
    }
}

proof fn lemma_ends_stopped(r: RelayView, step: RelayStepView, replies: Seq<RelayReply>)
    requires
        on_course(r, step),
        still_up(step),
        relay_run(r, step, replies) == RelayStepView::Done(Ok(())),
    ensures
        exists|i: int| #[trigger]
            found_stopped(r, relay_asked(r, step, replies), replies, i),
    decreases replies.len(),
{
    let asked = relay_asked(r, step, replies);
    let at = step->Wait_1;
    let next = relay_next(r, at, replies[0]);
    lemma_next_on_course(r, step, replies[0]);
    if at is Watching && !is_up(r.id, replies[0]->Probed_0.deep_view()) {
        assert(found_stopped(r, asked, replies, 0));
    } else {
        assert(still_up(next));
        lemma_ends_stopped(r, next, replies.skip(1));
        let rest = relay_asked(r, next, replies.skip(1));
        let i = choose|i: int| #[trigger] found_stopped(r, rest, replies.skip(1), i);
        assert(asked[i + 1] == rest[i]);
        assert(found_stopped(r, asked, replies, i + 1));
    }
}

proof fn lemma_ends_removed(r: RelayView, step: RelayStepView, replies: Seq<RelayReply>)
    requires
        on_course(r, step),
        step is Wait,
        !(step->Wait_1 is Idle),
        kept_at(r) is Some,
        relay_run(r, step, replies) == RelayStepView::Done(Ok(())),
    ensures
        relay_asked(r, step, replies).len() > 0,
        relay_asked(r, step, replies).last() == RelayRequestView::Stop(
            StopRequestView::Remove(kept_at(r)->Some_0),
        ),
    decreases replies.len(),
{
    let at = step->Wait_1;
    let next = relay_next(r, at, replies[0]);
    lemma_next_on_course(r, step, replies[0]);
    if next is Wait {
        assert(!(next->Wait_1 is Idle));
        lemma_ends_removed(r, next, replies.skip(1));
    } else {
        assert(relay_run(r, next, replies.skip(1)) == next);
        assert(at == RelayStateView::Stopping(StopState::Removing));
        assert(relay_asked(r, next, replies.skip(1)) == Seq::<RelayRequestView>::empty());
    }
}

/// A relay with something to forward ends well only once the container was
/// found stopped. The last thing it asks for is that its record be removed.
pub proof fn law_relay_ends_with_its_container(r: RelayView, replies: Seq<RelayReply>)
    requires
        r.dc.forward_ports.len() > 0,
        relay_run(r, relay_start(r), replies) == RelayStepView::Done(Ok(())),
    ensures
        exists|i: int| #[trigger]
            found_stopped(r, relay_asked(r, relay_start(r), replies), replies, i),
        kept_at(r) matches Some(path) ==> {
            let asked = relay_asked(r, relay_start(r), replies);
            asked.len() > 0 && asked.last() == RelayRequestView::Stop(
                StopRequestView::Remove(path),
            )
        },
{
    lemma_ends_stopped(r, relay_start(r), replies);
    if kept_at(r) is Some {
        lemma_ends_removed(r, relay_start(r), replies);
    }
}

/// As long as the container is found up, the relay goes on: it pauses, and
/// then looks again.
pub proof fn law_relay_stays_while_up(r: RelayView, outcome: Outcome, passed: RelayReply)
    requires
        is_up(r.id, outcome.deep_view()),
    ensures
        relay_run(
            r,
            relay_wait(r, RelayStateView::Watching),
            seq![RelayReply::Probed(outcome), passed],
        ) == relay_wait(r, RelayStateView::Watching),
{
    reveal_with_fuel(relay_run, 3);
    let replies = seq![RelayReply::Probed(outcome), passed];
    assert(replies.skip(1)[0] == passed);
    assert(replies.skip(1).skip(1).len() == 0);
}

/// The helper that a step goes by, from when it was found up to when it
/// serves.
spec fn helper_of(step: RelayStepView) -> Option<Helper> {
    match step {
        RelayStepView::Wait(_, RelayStateView::Warning { helper }) => Some(helper),
        RelayStepView::Wait(_, RelayStateView::Binding { helper, .. }) => Some(helper),
        RelayStepView::Wait(_, RelayStateView::Recording { helper, .. }) => Some(helper),
        RelayStepView::Wait(_, RelayStateView::Unrecorded { helper, .. }) => Some(helper),
        RelayStepView::Wait(_, RelayStateView::Reporting { helper, .. }) => Some(helper),
        RelayStepView::Wait(_, RelayStateView::Serving { helper, .. }) => Some(helper),
        _ => None,
    }
}

/// A helper was found in the container, by the `i`-th answer.
pub open spec fn found_helper(
    r: RelayView,
    asked: Seq<RelayRequestView>,
    replies: Seq<RelayReply>,
    helper: Helper,
    i: int,
) -> bool {
    &&& 0 <= i < asked.len()
    &&& i < replies.len()
    &&& asked[i] == RelayRequestView::Probe(
        RequestView::Capture(
            seq![
                "exec"@,
                r.id,
                "sh"@,
                "-c"@,
                "command -v "@ + binary_of(helper),
            ],
        ),
    )
    &&& replies[i]->Probed_0 matches Outcome::Exited { success: true, stdout, .. } && stdout@.len()
        > 0
}

proof fn lemma_helper_step(r: RelayView, step: RelayStepView, reply: RelayReply)
    requires
        on_course(r, step),
        step is Wait,
    ensures
        ({
            let next = relay_next(r, step->Wait_1, reply);
            helper_of(next) is Some ==> helper_of(step) == helper_of(next) || found_helper(
                r,
                seq![step->Wait_0],
                seq![reply],
                helper_of(next)->Some_0,
                0,
            )
        }),
{
    if let RelayStateView::Detecting(i) = step->Wait_1 {
        let helper = probe_order()[i];
        let args = probe_args(r.id, helper);
        assert(args == seq!["exec"@, r.id, "sh"@, "-c"@, "command -v "@ + binary_of(helper)]);
        let answer = Reply::Ran(reply->Probed_0).deep_view();
        let outcome = reply->Probed_0.deep_view();
        assert(answer->Ran_0 == outcome);
        if probe_hits(r.id, helper, answer) {
            assert(outcome matches OutcomeView::Exited { success: true, stdout, .. }
                && stdout.len() > 0);
            assert(seq![step->Wait_0][0] == step->Wait_0);
            assert(seq![reply][0] == reply);
        }
    }
}

proof fn lemma_helper_found(r: RelayView, step: RelayStepView, replies: Seq<RelayReply>)
    requires
        on_course(r, step),
        helper_of(step) is None,
        helper_of(relay_run(r, step, replies)) is Some,
    ensures
        exists|i: int| #[trigger]
            found_helper(
                r,
                relay_asked(r, step, replies),
                replies,
                helper_of(relay_run(r, step, replies))->Some_0,
                i,
            ),
    decreases replies.len(),
{
    let asked = relay_asked(r, step, replies);
    let helper = helper_of(relay_run(r, step, replies))->Some_0;
    if step is Wait && replies.len() > 0 {
        let next = relay_next(r, step->Wait_1, replies[0]);
        let rest = relay_asked(r, next, replies.skip(1));
        lemma_next_on_course(r, step, replies[0]);
        lemma_helper_step(r, step, replies[0]);
        if helper_of(next) is Some {
            lemma_helper_stays(r, next, replies.skip(1));
            assert(found_helper(r, asked, replies, helper, 0));
        } else {
            lemma_helper_found(r, next, replies.skip(1));
            let i = choose|i: int| #[trigger]
                found_helper(r, rest, replies.skip(1), helper, i);
            assert(asked[i + 1] == rest[i]);
            assert(found_helper(r, asked, replies, helper, i + 1));
        }
    }
}

/// A helper that was settled on stays.
proof fn lemma_helper_stays(r: RelayView, step: RelayStepView, replies: Seq<RelayReply>)
    requires
        helper_of(step) is Some,
    ensures
        helper_of(relay_run(r, step, replies)) is Some ==> helper_of(
            relay_run(r, step, replies),
        ) == helper_of(step),
    decreases replies.len(),
{
    if replies.len() > 0 {
        let next = relay_next(r, step->Wait_1, replies[0]);
        if helper_of(next) is Some {
            lemma_helper_stays(r, next, replies.skip(1));
        } else {
            lemma_no_helper_again(r, next, replies.skip(1));
        }
    }
}

proof fn lemma_no_helper_again(r: RelayView, step: RelayStepView, replies: Seq<RelayReply>)
    requires
        helper_of(step) is None,
        !(step matches RelayStepView::Wait(_, RelayStateView::Detecting(_))),
    ensures
        helper_of(relay_run(r, step, replies)) is None,
    decreases replies.len(),
{
    if step is Wait && replies.len() > 0 {
        lemma_no_helper_again(r, relay_next(r, step->Wait_1, replies[0]), replies.skip(1));
    }
}

/// What serves is a helper that was found in the container: it was probed for
/// there, and the probe said where it is.
pub proof fn law_serving_helper_was_found(
    r: RelayView,
    replies: Seq<RelayReply>,
    helper: Helper,
    mappings: Seq<MappingView>,
    at: RelayStateView,
)
    requires
        relay_run(r, relay_start(r), replies) == RelayStepView::Wait(
            RelayRequestView::Serve { helper, mappings },
            at,
        ),
    ensures
        exists|i: int| #[trigger]
            found_helper(r, relay_asked(r, relay_start(r), replies), replies, helper, i),
{
    lemma_on_course(r, relay_start(r), replies);
    lemma_helper_found(r, relay_start(r), replies);
}

/// A helper that can half-close is used at once; one that cannot is warned of
/// first. Socat and python3 can.
pub proof fn law_helper_is_warned_of(r: RelayView, helper: Helper)
    requires
        r.dc.forward_ports.len() > 0,
    ensures
        to_helper(r, DetectStepView::Done(Some(helper))) == if helper == Helper::Socat || helper
            == Helper::Python3 {
            RelayStepView::Wait(
                RelayRequestView::Bind(r.dc.forward_ports[0].desired_host_port),
                RelayStateView::Binding { helper, mappings: seq![], at: Try::Desired },
            )
        } else {
            RelayStepView::Wait(
                RelayRequestView::Say(seq![helper_text(helper)]),
                RelayStateView::Warning { helper },
            )
        },
        to_helper(r, DetectStepView::Done(None)) matches RelayStepView::Done(
            Err(ErrorView::NoHelper(ports)),
        ) && ports.len() == r.dc.forward_ports.len() && forall|i: int|
            0 <= i < ports.len() ==> #[trigger] ports[i] == r.dc.forward_ports[i].container_port,
{
}

/// Each target is tried at the port that it asks for; what is then bound is
/// what its mapping holds, and a port that could not be told is the end.
pub proof fn law_target_is_bound(
    r: RelayView,
    helper: Helper,
    mappings: Seq<MappingView>,
    at: Try,
    port: u16,
    why: String,
)
    requires
        mappings.len() + 1 < r.dc.forward_ports.len(),
    ensures
        ({
            let target = r.dc.forward_ports[mappings.len() as int];
            let next = r.dc.forward_ports[mappings.len() as int + 1];
            let state = RelayStateView::Binding { helper, mappings, at };
            &&& relay_next(r, state, RelayReply::Bound(Ok(port))) == RelayStepView::Wait(
                RelayRequestView::Bind(next.desired_host_port),
                RelayStateView::Binding {
                    helper,
                    mappings: mappings.push(
                        MappingView {
                            host_port: port,
                            desired_host_port: target.desired_host_port,
                            target_host: target.target_host,
                            container_port: target.container_port,
                        },
                    ),
                    at: Try::Desired,
                },
            )
            &&& relay_next(r, state, RelayReply::Bound(Err(why))) == RelayStepView::Done(
                Err(ErrorView::Io(why@)),
            )
        }),
{
}

/// The container is up if docker says `true`, and in no other case.
pub proof fn law_up_is_what_docker_says(id: Seq<char>, outcome: OutcomeView)
    ensures
        is_up(id, outcome) <==> (outcome matches OutcomeView::Exited { success: true, stdout, .. }
            && trimmed(utf8_lossy(stdout)) == "true"@),
        running_args(id) == seq!["inspect"@, "-f"@, "{{.State.Running}}"@, id],
{
    reveal_strlit("true");
}

proof fn lemma_recorded(
    r: RelayView,
    step: RelayStepView,
    replies: Seq<RelayReply>,
    path: Seq<char>,
)
    requires
        on_course(r, step),
        setting_up(step),
        kept_at(r) == Some(path),
        relay_run(r, step, replies) matches RelayStepView::Wait(RelayRequestView::Serve { .. }, _),
    ensures
        exists|i: int|
            0 <= i < relay_asked(r, step, replies).len() && (#[trigger] relay_asked(
                r,
                step,
                replies,
            )[i] matches RelayRequestView::Record { path: p, .. } && p == path),
    decreases replies.len(),
{
    let asked = relay_asked(r, step, replies);
    let next = relay_next(r, step->Wait_1, replies[0]);
    let rest = relay_asked(r, next, replies.skip(1));
    lemma_next_on_course(r, step, replies[0]);
    if setting_up(next) {
        lemma_recorded(r, next, replies.skip(1), path);
        let i = choose|i: int|
            0 <= i < rest.len() && (#[trigger] rest[i] matches RelayRequestView::Record {
                path: p,
                ..
            } && p == path);
        assert(asked[i + 1] == rest[i]);
    } else {
        assert(next->Wait_1 is Recording);
        assert(rest[0] == next->Wait_0);
        assert(asked[1] == rest[0]);
    }
}

/// A step from before the report.
spec fn unreported(step: RelayStepView) -> bool {
    match step {
        RelayStepView::Wait(_, at) => setting_up(step) || at is Recording || at is Unrecorded,
        RelayStepView::Done(_) => false,
    }
}

proof fn lemma_reported(
    r: RelayView,
    step: RelayStepView,
    replies: Seq<RelayReply>,
    helper: Helper,
    mappings: Seq<MappingView>,
    at: RelayStateView,
)
    requires
        on_course(r, step),
        unreported(step) || step matches RelayStepView::Wait(_, RelayStateView::Reporting { .. }),
        relay_run(r, step, replies) == RelayStepView::Wait(
            RelayRequestView::Serve { helper, mappings },
            at,
        ),
    ensures
        relay_asked(r, step, replies).contains(RelayRequestView::Say(report_lines(mappings))),
    decreases replies.len(),
{
    let asked = relay_asked(r, step, replies);
    let next = relay_next(r, step->Wait_1, replies[0]);
    let rest = relay_asked(r, next, replies.skip(1));
    lemma_next_on_course(r, step, replies[0]);
    if let RelayStateView::Reporting { helper: h, mappings: m } = step->Wait_1 {
        assert(asked[0] == step->Wait_0);
        lemma_serves_what_is_held(r, next, replies.skip(1), helper, mappings, at);
        assert(asked[0] == RelayRequestView::Say(report_lines(mappings)));
    } else if next is Wait {
        lemma_reported(r, next, replies.skip(1), helper, mappings, at);
        let i = rest.index_of(RelayRequestView::Say(report_lines(mappings)));
        assert(asked[i + 1] == rest[i]);
    } else {
        assert(relay_run(r, next, replies.skip(1)) == next);
    }
}

/// What is served is what was reported.
proof fn lemma_serves_what_is_held(
    r: RelayView,
    step: RelayStepView,
    replies: Seq<RelayReply>,
    helper: Helper,
    mappings: Seq<MappingView>,
    at: RelayStateView,
)
    requires
        on_course(r, step),
        step matches RelayStepView::Wait(_, RelayStateView::Serving { .. }),
        relay_run(r, step, replies) == RelayStepView::Wait(
            RelayRequestView::Serve { helper, mappings },
            at,
        ),
    ensures
        step->Wait_0 == (RelayRequestView::Serve { helper, mappings }),
{
    if replies.len() > 0 {
        let next = relay_next(r, step->Wait_1, replies[0]);
        lemma_not_held_again(r, next, replies.skip(1));
        lemma_next_on_course(r, step, replies[0]);
        lemma_on_course(r, next, replies.skip(1));
    }
}

/// Before a relay serves, it was to be recorded, if its state is kept anywhere,
/// and what it serves was reported.
pub proof fn law_relay_is_recorded_and_reported(
    r: RelayView,
    replies: Seq<RelayReply>,
    helper: Helper,
    mappings: Seq<MappingView>,
    at: RelayStateView,
)
    requires
        relay_run(r, relay_start(r), replies) == RelayStepView::Wait(
            RelayRequestView::Serve { helper, mappings },
            at,
        ),
    ensures
        kept_at(r) matches Some(path) ==> exists|i: int|
            0 <= i < relay_asked(r, relay_start(r), replies).len() && (#[trigger] relay_asked(
                r,
                relay_start(r),
                replies,
            )[i] matches RelayRequestView::Record { path: p, .. } && p == path),
        relay_asked(r, relay_start(r), replies).contains(
            RelayRequestView::Say(report_lines(mappings)),
        ),
{
    if let Some(path) = kept_at(r) {
        lemma_recorded(r, relay_start(r), replies, path);
    }
    lemma_reported(r, relay_start(r), replies, helper, mappings, at);
}

} // verus!

//! Tearing a project's relay down.

use super::state::{record_file, record_path, Host, State};
use crate::devcontainer::Devcontainer;
use vstd::prelude::*;

verus! {

/// A piece of work to be done outside.
#[derive(Debug)]
pub enum StopRequest {
    /// Read the state file.
    ReadState(String),
    /// See whether this process is a live relay.
    CheckAlive(u32),
    /// Kill this process.
    Kill(u32),
    /// Remove the state file.
    Remove(String),
}

/// A [`StopRequest`] as plain values.
#[verifier::ext_equal]
pub enum StopRequestView {
    ReadState(Seq<char>),
    CheckAlive(u32),
    Kill(u32),
    Remove(Seq<char>),
}

impl DeepView for StopRequest {
    type V = StopRequestView;

    open spec fn deep_view(&self) -> StopRequestView {
        match self {
            StopRequest::ReadState(path) => StopRequestView::ReadState(path@),
            StopRequest::CheckAlive(pid) => StopRequestView::CheckAlive(*pid),
            StopRequest::Kill(pid) => StopRequestView::Kill(*pid),
            StopRequest::Remove(path) => StopRequestView::Remove(path@),
        }
    }
}

/// The answer to a [`StopRequest`].
#[derive(Debug)]
pub enum StopReply {
    /// To [`StopRequest::ReadState`]: the state, if the file holds one.
    Recorded(Option<State>),
    /// To [`StopRequest::CheckAlive`].
    Alive(bool),
    /// To any other request, however it went.
    Done,
}

/// What is being waited for.
#[derive(Debug, Clone, Copy, PartialEq, Eq, Structural)]
pub enum StopState {
    /// The state of the relay.
    Reading,
    /// Whether its process is alive.
    Checking(u32),
    /// Its process to be killed.
    Killing(u32),
    /// The state to go.
    Removing,
}

/// Where tearing a relay down stands.
#[derive(Debug)]
pub enum StopStep {
    /// Do what is asked for, then go on from the state with the answer.
    Wait(StopRequest, StopState),
    Done,
}

/// A [`StopStep`] as plain values.
#[verifier::ext_equal]
pub enum StopStepView {
    Wait(StopRequestView, StopState),
    Done,
}

impl DeepView for StopStep {
    type V = StopStepView;

    open spec fn deep_view(&self) -> StopStepView {
        match self {
            StopStep::Wait(q, at) => StopStepView::Wait(q.deep_view(), *at),
            StopStep::Done => StopStepView::Done,
        }
    }
}

/// What a state waits for, where the relay's state is kept at `path`.
pub open spec fn stop_request(path: Seq<char>, at: StopState) -> StopRequestView {
    match at {
        StopState::Reading => StopRequestView::ReadState(path),
        StopState::Checking(pid) => StopRequestView::CheckAlive(pid),
        StopState::Killing(pid) => StopRequestView::Kill(pid),
        StopState::Removing => StopRequestView::Remove(path),
    }
}

/// A reply of the kind that a state waits for.
pub open spec fn stop_answers(reply: StopReply, at: StopState) -> bool {
    match at {
        StopState::Reading => reply is Recorded,
        StopState::Checking(_) => reply is Alive,
        _ => reply is Done,
    }
}

/// Tearing down waits in a state.
pub open spec fn stop_wait(path: Seq<char>, at: StopState) -> StopStepView {
    StopStepView::Wait(stop_request(path, at), at)
}

/// The first step: to read the state, if one is kept anywhere.
pub open spec fn stop_start(path: Option<Seq<char>>) -> StopStepView {
    match path {
        Some(path) => stop_wait(path, StopState::Reading),
        None => StopStepView::Done,
    }
}

/// The step from a state with the answer that it waited for: another process
/// that is alive is killed, and the state goes either way.
pub open spec fn stop_next(path: Seq<char>, own_pid: u32, at: StopState, reply: StopReply) -> StopStepView {
    match at {
        StopState::Reading => match reply->Recorded_0 {
            Some(state) if state.pid != own_pid => stop_wait(path, StopState::Checking(state.pid)),
            _ => stop_wait(path, StopState::Removing),
        },
        StopState::Checking(pid) => if reply->Alive_0 {
            stop_wait(path, StopState::Killing(pid))
        } else {
            stop_wait(path, StopState::Removing)
        },
        StopState::Killing(_) => stop_wait(path, StopState::Removing),
        StopState::Removing => StopStepView::Done,
    }
}

/// Tear down this project's relay: kill it if it's someone else, and clear the
/// state file either way. Done on `devcon down` and by the relay itself on
/// exit. The first step.
pub fn stop(dc: &Devcontainer, host: &Host) -> (r: StopStep)
    ensures
        r.deep_view() == stop_start(record_path(host.deep_view(), dc.project_root@)),
{
    match record_file(host, dc) {
        Some(path) => StopStep::Wait(StopRequest::ReadState(path), StopState::Reading),
        None => StopStep::Done,
    }
}

/// Go on with tearing the relay down from a state, with the answer that it
/// waited for.
pub fn stop_on(dc: &Devcontainer, host: &Host, at: StopState, reply: StopReply) -> (r: StopStep)
    requires
        record_path(host.deep_view(), dc.project_root@) is Some,
        stop_answers(reply, at),
    ensures
        r.deep_view() == stop_next(
            record_path(host.deep_view(), dc.project_root@)->Some_0,
            host.pid,
            at,
            reply,
        ),
{
    match at {
        StopState::Reading => {
            if let StopReply::Recorded(Some(state)) = reply {
                if state.pid != host.pid {
                    return StopStep::Wait(
                        StopRequest::CheckAlive(state.pid),
                        StopState::Checking(state.pid),
                    );
                }
            }
        },
        StopState::Checking(pid) => {
            if let StopReply::Alive(true) = reply {
                return StopStep::Wait(StopRequest::Kill(pid), StopState::Killing(pid));
            }
        },
        StopState::Killing(_) => {},
        StopState::Removing => {
            return StopStep::Done;
        },
    }
    match record_file(host, dc) {
        Some(path) => StopStep::Wait(StopRequest::Remove(path), StopState::Removing),
        None => StopStep::Done,
    }
}

// ---------------------------------------------------------------------------
// Laws
// ---------------------------------------------------------------------------

/// Where tearing down stands after the given answers.
pub open spec fn stop_run(
    path: Seq<char>,
    own_pid: u32,
    step: StopStepView,
    replies: Seq<StopReply>,
) -> StopStepView
    decreases replies.len(),
{
    match step {
        StopStepView::Wait(_, at) => if replies.len() == 0 {
            step
        } else {
            stop_run(path, own_pid, stop_next(path, own_pid, at, replies[0]), replies.skip(1))
        },
        StopStepView::Done => step,
    }
}

/// A step that has nothing to do with a process.
spec fn spares(step: StopStepView, pid: u32) -> bool {
    match step {
        StopStepView::Wait(q, StopState::Checking(p)) => p != pid && !(q is Kill),
        StopStepView::Wait(q, StopState::Killing(p)) => p != pid && q == StopRequestView::Kill(p),
        StopStepView::Wait(q, _) => !(q is Kill),
        StopStepView::Done => true,
    }
}

proof fn lemma_spares(path: Seq<char>, own_pid: u32, step: StopStepView, replies: Seq<StopReply>)
    requires
        spares(step, own_pid),
    ensures
        spares(stop_run(path, own_pid, step, replies), own_pid),
    decreases replies.len(),
{
    if step is Wait && replies.len() > 0 {
        let next = stop_next(path, own_pid, step->Wait_1, replies[0]);
        lemma_spares(path, own_pid, next, replies.skip(1));
    }
}

/// A relay that is torn down never has its own process killed.
pub proof fn law_stop_spares_itself(
    path: Option<Seq<char>>,
    own_pid: u32,
    replies: Seq<StopReply>,
    pid: u32,
    at: StopState,
)
    requires
        path is Some,
        stop_run(path->Some_0, own_pid, stop_start(path), replies) == StopStepView::Wait(
            StopRequestView::Kill(pid),
            at,
        ),
    ensures
        pid != own_pid,
{
    lemma_spares(path->Some_0, own_pid, stop_start(path), replies);
}

/// No process is killed but one that was just found alive, and tearing down
/// ends only once the state was to be removed.
pub proof fn law_stop_step(path: Seq<char>, own_pid: u32, at: StopState, reply: StopReply)
    ensures
        stop_next(path, own_pid, at, reply) matches StopStepView::Wait(StopRequestView::Kill(pid), _)
            ==> stop_request(path, at) == StopRequestView::CheckAlive(pid) && reply->Alive_0,
        stop_next(path, own_pid, at, reply) is Done ==> stop_request(path, at)
            == StopRequestView::Remove(path),
{
}

/// The relay that is recorded is killed if it is another process and alive;
/// otherwise nothing is. The record goes in any case.
pub proof fn law_other_relay_is_stopped(path: Seq<char>, own_pid: u32, state: State, done: StopReply)
    ensures
        stop_start(Some(path)) == StopStepView::Wait(
            StopRequestView::ReadState(path),
            StopState::Reading,
        ),
        stop_start(None) == StopStepView::Done,
        state.pid != own_pid ==> stop_next(
            path,
            own_pid,
            StopState::Reading,
            StopReply::Recorded(Some(state)),
        ) == StopStepView::Wait(
            StopRequestView::CheckAlive(state.pid),
            StopState::Checking(state.pid),
        ),
        state.pid == own_pid ==> stop_next(
            path,
            own_pid,
            StopState::Reading,
            StopReply::Recorded(Some(state)),
        ) == StopStepView::Wait(StopRequestView::Remove(path), StopState::Removing),
        stop_next(path, own_pid, StopState::Reading, StopReply::Recorded(None))
            == StopStepView::Wait(StopRequestView::Remove(path), StopState::Removing),
        stop_next(path, own_pid, StopState::Checking(state.pid), StopReply::Alive(true))
            == StopStepView::Wait(StopRequestView::Kill(state.pid), StopState::Killing(state.pid)),
        stop_next(path, own_pid, StopState::Checking(state.pid), StopReply::Alive(false))
            == StopStepView::Wait(StopRequestView::Remove(path), StopState::Removing),
        stop_next(path, own_pid, StopState::Killing(state.pid), done) == StopStepView::Wait(
            StopRequestView::Remove(path),
            StopState::Removing,
        ),
        stop_next(path, own_pid, StopState::Removing, done) == StopStepView::Done,
{
}

} // verus!

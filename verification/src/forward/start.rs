//! Keeping a relay running for a project.
//!
//! The relay outlives the `devcon` that starts it, as a detached child, and
//! ends with the container. If it dies for any other reason, the next `devcon`
//! notices the stale state and starts a fresh one.

use super::state::{report, report_lines, State, StateView};
use crate::devcontainer::{Devcontainer, DevcontainerView};
use crate::text::same;
use vstd::prelude::*;

verus! {

/// How often a freshly started relay is given time to publish its mappings.
pub const STARTUP_POLLS: u32 = 30;

/// A piece of work to be done outside.
#[derive(Debug, Clone, Copy, PartialEq, Eq, Structural)]
pub enum KeepRequest {
    /// Read the state file.
    ReadState,
    /// See whether this process is a live relay.
    CheckAlive(u32),
    /// Remove the state file.
    RemoveState,
    /// Launch `devcon forward --detached` in the background.
    Spawn,
    /// Wait a moment.
    Pause,
}

/// The answer to a [`KeepRequest`].
#[derive(Debug)]
pub enum KeepReply {
    /// To [`KeepRequest::ReadState`]: the state, if the file holds one.
    Recorded(Option<State>),
    /// To [`KeepRequest::CheckAlive`].
    Alive(bool),
    /// To [`KeepRequest::Spawn`].
    Spawned(Result<(), String>),
    /// To any other request.
    Done,
}

/// A [`KeepReply`] as plain values.
#[verifier::ext_equal]
pub enum KeepReplyView {
    Recorded(Option<StateView>),
    Alive(bool),
    Spawned(Option<Seq<char>>),
    Done,
}

impl DeepView for KeepReply {
    type V = KeepReplyView;

    open spec fn deep_view(&self) -> KeepReplyView {
        match self {
            KeepReply::Recorded(state) => KeepReplyView::Recorded(state.deep_view()),
            KeepReply::Alive(alive) => KeepReplyView::Alive(*alive),
            KeepReply::Spawned(r) => KeepReplyView::Spawned(
                match r {
                    Ok(_) => None,
                    Err(why) => Some(why@),
                },
            ),
            KeepReply::Done => KeepReplyView::Done,
        }
    }
}

/// What is being waited for.
#[derive(Debug)]
pub enum KeepState {
    /// The state of a relay that may be running.
    Looking,
    /// Whether the relay of that state is alive.
    Checking { state: State },
    /// A stale state to go.
    Clearing,
    /// A fresh relay.
    Spawning,
    /// Time for the fresh relay to publish its mappings.
    Pausing { poll: u32 },
    /// The state of the fresh relay.
    Polling { poll: u32 },
}

/// A [`KeepState`] as plain values.
#[verifier::ext_equal]
pub enum KeepStateView {
    Looking,
    Checking { state: StateView },
    Clearing,
    Spawning,
    Pausing { poll: u32 },
    Polling { poll: u32 },
}

impl DeepView for KeepState {
    type V = KeepStateView;

    open spec fn deep_view(&self) -> KeepStateView {
        match self {
            KeepState::Looking => KeepStateView::Looking,
            KeepState::Checking { state } => KeepStateView::Checking { state: state.deep_view() },
            KeepState::Clearing => KeepStateView::Clearing,
            KeepState::Spawning => KeepStateView::Spawning,
            KeepState::Pausing { poll } => KeepStateView::Pausing { poll: *poll },
            KeepState::Polling { poll } => KeepStateView::Polling { poll: *poll },
        }
    }
}

/// Where keeping a relay running stands. It never fails the caller:
/// forwarding is a convenience, and no port is worth standing between someone
/// and their shell.
#[derive(Debug)]
pub enum KeepStep {
    /// Do what is asked for, then go on from the state with the answer.
    Wait(KeepRequest, KeepState),
    /// Say these lines; that is all.
    Done(Vec<String>),
}

/// A [`KeepStep`] as plain values.
#[verifier::ext_equal]
pub enum KeepStepView {
    Wait(KeepRequest, KeepStateView),
    Done(Seq<Seq<char>>),
}

impl DeepView for KeepStep {
    type V = KeepStepView;

    open spec fn deep_view(&self) -> KeepStepView {
        match self {
            KeepStep::Wait(q, s) => KeepStepView::Wait(*q, s.deep_view()),
            KeepStep::Done(say) => KeepStepView::Done(say.deep_view()),
        }
    }
}

/// What a state waits for.
pub open spec fn keep_request(at: KeepStateView) -> KeepRequest {
    match at {
        KeepStateView::Looking => KeepRequest::ReadState,
        KeepStateView::Checking { state } => KeepRequest::CheckAlive(state.pid),
        KeepStateView::Clearing => KeepRequest::RemoveState,
        KeepStateView::Spawning => KeepRequest::Spawn,
        KeepStateView::Pausing { .. } => KeepRequest::Pause,
        KeepStateView::Polling { .. } => KeepRequest::ReadState,
    }
}

/// A reply of the kind that a request calls for.
pub open spec fn keep_answers(reply: KeepReplyView, request: KeepRequest) -> bool {
    match request {
        KeepRequest::ReadState => reply is Recorded,
        KeepRequest::CheckAlive(_) => reply is Alive,
        KeepRequest::Spawn => reply is Spawned,
        _ => true,
    }
}

/// Wait in a state.
pub open spec fn keep_wait(at: KeepStateView) -> KeepStepView {
    KeepStepView::Wait(keep_request(at), at)
}

/// The first step: nothing to do without ports to forward, nor without a place
/// to keep the state.
pub open spec fn keep_start(dc: DevcontainerView, has_state_path: bool) -> KeepStepView {
    if dc.forward_ports.len() == 0 {
        KeepStepView::Done(seq![])
    } else if !has_state_path {
        KeepStepView::Done(
            seq!["\x1b[33mdevcon:\x1b[0m no state directory — skipping port forwarding."@],
        )
    } else {
        keep_wait(KeepStateView::Looking)
    }
}

/// The step from a state with the answer that it waited for. `id` is the
/// container, `log` the relay's log file.
pub open spec fn keep_next(
    id: Seq<char>,
    log: Option<Seq<char>>,
    at: KeepStateView,
    reply: KeepReplyView,
) -> KeepStepView {
    match at {
        KeepStateView::Looking => match reply->Recorded_0 {
            Some(state) => if state.container_id == id {
                keep_wait(KeepStateView::Checking { state })
            } else {
                keep_wait(KeepStateView::Clearing)
            },
            None => keep_wait(KeepStateView::Spawning),
        },
        KeepStateView::Checking { state } => if reply->Alive_0 {
            KeepStepView::Done(report_lines(state.mappings))
        } else {
            keep_wait(KeepStateView::Clearing)
        },
        KeepStateView::Clearing => keep_wait(KeepStateView::Spawning),
        KeepStateView::Spawning => match reply->Spawned_0 {
            Some(why) => KeepStepView::Done(
                seq!["\x1b[33mdevcon:\x1b[0m could not start port forwarding: "@ + why],
            ),
            None => keep_wait(KeepStateView::Pausing { poll: 0 }),
        },
        KeepStateView::Pausing { poll } => keep_wait(KeepStateView::Polling { poll }),
        KeepStateView::Polling { poll } => match reply->Recorded_0 {
            Some(state) => KeepStepView::Done(report_lines(state.mappings)),
            None => if poll + 1 < STARTUP_POLLS {
                keep_wait(KeepStateView::Pausing { poll: (poll + 1) as u32 })
            } else {
                KeepStepView::Done(
                    seq![
                        "\x1b[33mdevcon:\x1b[0m port forwarding is still starting; see "@ + match log {
                            Some(path) => path,
                            None => seq![],
                        },
                    ],
                )
            },
        },
    }
}

/// One line to say, and nothing more to do.
fn say_last(line: String) -> (r: KeepStep)
    ensures
        r.deep_view() == KeepStepView::Done(seq![line@]),
{
    let mut say: Vec<String> = Vec::new();
    say.push(line);
    assert(say.deep_view() == seq![line@]);
    KeepStep::Done(say)
}

/// Make sure that a relay is running for this project, starting one if not:
/// the first step.
pub fn ensure_running(dc: &Devcontainer, has_state_path: bool) -> (r: KeepStep)
    ensures
        r.deep_view() == keep_start(dc.deep_view(), has_state_path),
{
    if dc.forward_ports.is_empty() {
        let say: Vec<String> = Vec::new();
        assert(say.deep_view() == Seq::<Seq<char>>::empty());
        KeepStep::Done(say)
    } else if !has_state_path {
        say_last(
            "\x1b[33mdevcon:\x1b[0m no state directory — skipping port forwarding.".to_owned(),
        )
    } else {
        KeepStep::Wait(KeepRequest::ReadState, KeepState::Looking)
    }
}

/// Go on from a state, with the answer that it waited for.
pub fn ensure_running_on(container_id: &str, log: Option<&str>, at: KeepState, reply: KeepReply) -> (r:
    KeepStep)
    requires
        keep_answers(reply.deep_view(), keep_request(at.deep_view())),
    ensures
        r.deep_view() == keep_next(
            container_id@,
            log.deep_view(),
            at.deep_view(),
            reply.deep_view(),
        ),
{
    match (at, reply) {
        (KeepState::Looking, KeepReply::Recorded(recorded)) => match recorded {
            Some(state) => {
                if same(state.container_id.as_str(), container_id) {
                    KeepStep::Wait(
                        KeepRequest::CheckAlive(state.pid),
                        KeepState::Checking { state },
                    )
                } else {
                    KeepStep::Wait(KeepRequest::RemoveState, KeepState::Clearing)
                }
            },
            None => KeepStep::Wait(KeepRequest::Spawn, KeepState::Spawning),
        },
        (KeepState::Checking { state }, KeepReply::Alive(alive)) => {
            if alive {
                KeepStep::Done(report(&state.mappings))
            } else {
                KeepStep::Wait(KeepRequest::RemoveState, KeepState::Clearing)
            }
        },
        (KeepState::Clearing, _) => KeepStep::Wait(KeepRequest::Spawn, KeepState::Spawning),
        (KeepState::Spawning, KeepReply::Spawned(spawned)) => match spawned {
            Ok(_) => KeepStep::Wait(KeepRequest::Pause, KeepState::Pausing { poll: 0 }),
            Err(why) => {
                let mut line: String = "\x1b[33mdevcon:\x1b[0m could not start port forwarding: ".to_owned();
                line.append(why.as_str());
                say_last(line)
            },
        },
        (KeepState::Pausing { poll }, _) => {
            KeepStep::Wait(KeepRequest::ReadState, KeepState::Polling { poll })
        },
        (KeepState::Polling { poll }, KeepReply::Recorded(recorded)) => match recorded {
            Some(state) => KeepStep::Done(report(&state.mappings)),
            None => {
                if poll < STARTUP_POLLS - 1 {
                    KeepStep::Wait(KeepRequest::Pause, KeepState::Pausing { poll: poll + 1 })
                } else {
                    let mut line: String = "\x1b[33mdevcon:\x1b[0m port forwarding is still starting; see ".to_owned();
                    let ghost front = line@;
                    match log {
                        Some(path) => line.append(path),
                        None => assert(line@ == front + Seq::<char>::empty()),
                    }
                    say_last(line)
                }
            },
        },
        _ => say_last(String::new()),
    }
}

// ---------------------------------------------------------------------------
// Laws
// ---------------------------------------------------------------------------

/// Where it stands after the given answers.
pub open spec fn keep_run(
    id: Seq<char>,
    log: Option<Seq<char>>,
    step: KeepStepView,
    replies: Seq<KeepReplyView>,
) -> KeepStepView
    decreases replies.len(),
{
    match step {
        KeepStepView::Wait(_, at) => if replies.len() == 0 {
            step
        } else {
            keep_run(id, log, keep_next(id, log, at, replies[0]), replies.skip(1))
        },
        KeepStepView::Done(_) => step,
    }
}

/// A live relay of this very container is left to run, and its mappings are
/// said again; nothing is started.
pub proof fn law_live_relay_is_kept(
    dc: DevcontainerView,
    id: Seq<char>,
    log: Option<Seq<char>>,
    state: StateView,
)
    requires
        dc.forward_ports.len() > 0,
        state.container_id == id,
    ensures
        keep_run(
            id,
            log,
            keep_start(dc, true),
            seq![KeepReplyView::Recorded(Some(state)), KeepReplyView::Alive(true)],
        ) == KeepStepView::Done(report_lines(state.mappings)),
{
    let replies = seq![KeepReplyView::Recorded(Some(state)), KeepReplyView::Alive(true)];
    let second = keep_wait(KeepStateView::Checking { state });
    assert(keep_run(id, log, keep_start(dc, true), replies) == keep_run(
        id,
        log,
        second,
        replies.skip(1),
    ));
    assert(replies.skip(1)[0] == KeepReplyView::Alive(true));
    assert(keep_run(id, log, second, replies.skip(1)) == keep_run(
        id,
        log,
        KeepStepView::Done(report_lines(state.mappings)),
        replies.skip(1).skip(1),
    ));
}

/// A dead relay, or one of another container, is cleared away, and a fresh one
/// is started.
pub proof fn law_stale_relay_is_replaced(
    dc: DevcontainerView,
    id: Seq<char>,
    log: Option<Seq<char>>,
    state: StateView,
    cleared: KeepReplyView,
)
    requires
        dc.forward_ports.len() > 0,
    ensures
        state.container_id != id ==> keep_run(
            id,
            log,
            keep_start(dc, true),
            seq![KeepReplyView::Recorded(Some(state)), cleared],
        ) == keep_wait(KeepStateView::Spawning),
        keep_next(id, log, KeepStateView::Checking { state }, KeepReplyView::Alive(false))
            == keep_wait(KeepStateView::Clearing),
{
    let replies = seq![KeepReplyView::Recorded(Some(state)), cleared];
    let second = keep_wait(KeepStateView::Clearing);
    let third = keep_wait(KeepStateView::Spawning);
    if state.container_id != id {
        assert(keep_run(id, log, keep_start(dc, true), replies) == keep_run(
            id,
            log,
            second,
            replies.skip(1),
        ));
        assert(keep_run(id, log, second, replies.skip(1)) == keep_run(
            id,
            log,
            third,
            replies.skip(1).skip(1),
        ));
        assert(replies.skip(1).skip(1).len() == 0);
    }
}

/// How far it is from its end.
pub open spec fn keep_rank(at: KeepStateView) -> int {
    match at {
        KeepStateView::Looking => 103,
        KeepStateView::Checking { .. } => 102,
        KeepStateView::Clearing => 101,
        KeepStateView::Spawning => 100,
        KeepStateView::Pausing { poll } => if poll < STARTUP_POLLS {
            2 * (STARTUP_POLLS - poll) + 1
        } else {
            1
        },
        KeepStateView::Polling { poll } => if poll < STARTUP_POLLS {
            2 * (STARTUP_POLLS - poll)
        } else {
            0
        },
    }
}

/// Each answer brings it nearer to its end: the shell is not held up for
/// longer than the polls take.
pub proof fn law_keep_goes_on(
    id: Seq<char>,
    log: Option<Seq<char>>,
    at: KeepStateView,
    reply: KeepReplyView,
)
    ensures
        keep_next(id, log, at, reply) matches KeepStepView::Wait(_, next) ==> 0 <= keep_rank(next)
            < keep_rank(at),
{
}

/// A relay is looked for by its record, and by whether the process of that
/// record is alive; where there is no record, a relay is started at once. What
/// a fresh relay publishes is what is said.
pub proof fn law_relay_is_started_where_none_runs(
    dc: DevcontainerView,
    id: Seq<char>,
    log: Option<Seq<char>>,
    state: StateView,
    poll: u32,
    done: KeepReplyView,
    why: Seq<char>,
)
    requires
        dc.forward_ports.len() > 0,
    ensures
        keep_start(dc, true) == KeepStepView::Wait(KeepRequest::ReadState, KeepStateView::Looking),
        keep_next(id, log, KeepStateView::Looking, KeepReplyView::Recorded(None))
            == KeepStepView::Wait(KeepRequest::Spawn, KeepStateView::Spawning),
        state.container_id == id ==> keep_next(
            id,
            log,
            KeepStateView::Looking,
            KeepReplyView::Recorded(Some(state)),
        ) == KeepStepView::Wait(
            KeepRequest::CheckAlive(state.pid),
            KeepStateView::Checking { state },
        ),
        state.container_id != id ==> keep_next(
            id,
            log,
            KeepStateView::Looking,
            KeepReplyView::Recorded(Some(state)),
        ) == KeepStepView::Wait(KeepRequest::RemoveState, KeepStateView::Clearing),
        keep_next(id, log, KeepStateView::Checking { state }, KeepReplyView::Alive(false))
            == KeepStepView::Wait(KeepRequest::RemoveState, KeepStateView::Clearing),
        keep_next(id, log, KeepStateView::Clearing, done) == KeepStepView::Wait(
            KeepRequest::Spawn,
            KeepStateView::Spawning,
        ),
        keep_next(id, log, KeepStateView::Spawning, KeepReplyView::Spawned(None))
            == KeepStepView::Wait(KeepRequest::Pause, KeepStateView::Pausing { poll: 0 }),
        keep_next(id, log, KeepStateView::Spawning, KeepReplyView::Spawned(Some(why))) is Done,
        keep_next(id, log, KeepStateView::Pausing { poll }, done) == KeepStepView::Wait(
            KeepRequest::ReadState,
            KeepStateView::Polling { poll },
        ),
        keep_next(id, log, KeepStateView::Polling { poll }, KeepReplyView::Recorded(Some(state)))
            == KeepStepView::Done(report_lines(state.mappings)),
{
}

/// Without ports to forward, nothing is done and nothing is said.
pub proof fn law_nothing_to_keep(dc: DevcontainerView, has_state_path: bool)
    requires
        dc.forward_ports.len() == 0,
    ensures
        keep_start(dc, has_state_path) == KeepStepView::Done(Seq::<Seq<char>>::empty()),
{
}

} // verus!

//! Getting to a container that is up, fresh and set up: a walk from one piece
//! of outside work to the next.
//!
//! [`ensure_up`] takes the first step, [`ensure_up_on`] every other one.

use super::drift::{
    all_changes, changes, confirm_rebuild, confirm_start, display_relative, drift_notice,
    file_newer_than, is_yes, is_yes_or_empty, newer, notice_text, rebuild_question, rebuild_text,
    shown, start_question, start_text,
};
use super::hooks::{
    announce, argv, command_argv, command_text, describe, hook_commands, hook_name,
    post_start_sentinel, running_text, stamp_argv, start_sentinel, warn_lifecycle, warning_text,
    Hook, HookView,
};
use super::stack::{
    bring_up_compose, bring_up_image, rebuild_args, rebuild_compose, run_args, up_args,
};
use super::{exited_well, ran, Error, ErrorView, Rebuild};
use crate::devcontainer::{
    compose_based, config_dir, stack_of, workspace_of, Devcontainer, DevcontainerView,
};
use crate::docker::container::{
    compose_down_args, compose_down_project, compose_project, compose_project_args, created_args,
    created_at, created_at_args, exec_args, exec_command, exec_command_args, exec_status,
    has_marker, has_marker_file, has_marker_on, is_compose_container, marker_next, marker_request,
    project_args, remove, remove_args, resolve_user, started_args, started_at, started_at_args, stated,
    stated_label, user_args, user_exists_args, user_found, user_warning, MarkerState, MarkerStep,
    MarkerStepView,
};
use crate::docker::find::{
    find, find_next, find_on, find_request, find_state_fits, FindState, FindStateView, FindStep,
    FindStepView,
};
use crate::docker::{
    captured, captured_text, run_docker, run_docker_text, run_status, status_of, Container,
    ContainerView,
};
use crate::path::join;
use crate::request::{answers, seen, strings, Outcome, Reply, ReplyView, Request, RequestView};
use crate::timestamp::{parse_rfc3339_secs, timestamp};
use vstd::prelude::*;

verus! {

// ---------------------------------------------------------------------------
// The model
// ---------------------------------------------------------------------------

/// What the caller chose for this run.
#[derive(Debug, Clone, Copy)]
pub struct Choices {
    /// Do what would be asked about (`-y`).
    pub assume_yes: bool,
    /// How rebuild-on-drift is handled.
    pub rebuild: Rebuild,
    /// There is someone at a terminal to ask.
    pub interactive: bool,
}

/// A way to bring a stack up.
#[derive(Debug, Clone, Copy)]
pub enum BringUp {
    /// `docker compose up`.
    Compose,
    /// `docker compose up --build --force-recreate`.
    Recreate,
    /// `docker run`.
    Image,
}

/// What is being waited for on the way up.
#[derive(Debug)]
pub enum UpState {
    /// Whether to start the stack.
    AskingStart,
    /// The compose project of the running container.
    CheckingKind { container: Container },
    /// When the running container was made.
    CheckingCreated { container: Container, compose: bool },
    /// When a stack file was modified.
    CheckingFile {
        container: Container,
        compose: bool,
        created: i64,
        file: usize,
        changed: Vec<String>,
    },
    /// Whether to rebuild.
    AskingRebuild { container: Container, compose: bool, question: String },
    /// The compose project to tear down.
    FetchingProject { container: Container },
    /// The old container or stack to go.
    Clearing { args: Vec<String> },
    /// The stack to come up.
    BringingUp { how: BringUp },
    /// A step of the search for the container that came up.
    Locating { how: BringUp, at: FindState },
    /// Why nothing runs.
    Diagnosing,
    /// A signal that postCreate has run.
    CheckingMarker { container: Container, at: MarkerState },
    /// Whether the declared user is there.
    CheckingUser { container: Container, hook: Hook },
    /// A command of a hook.
    RunningCommand { container: Container, hook: Hook, user: Option<String>, index: usize },
    /// The record that a hook ran.
    Stamping { container: Container, hook: Hook },
    /// When the container was started.
    CheckingStart { container: Container },
    /// Whether postStart has run for this start.
    CheckingSentinel { container: Container, sentinel: String },
}

/// An [`UpState`] as plain values.
#[verifier::ext_equal]
pub enum UpStateView {
    AskingStart,
    CheckingKind { container: ContainerView },
    CheckingCreated { container: ContainerView, compose: bool },
    CheckingFile {
        container: ContainerView,
        compose: bool,
        created: i64,
        file: int,
        changed: Seq<Seq<char>>,
    },
    AskingRebuild { container: ContainerView, compose: bool, question: Seq<char> },
    FetchingProject { container: ContainerView },
    Clearing { args: Seq<Seq<char>> },
    BringingUp { how: BringUp },
    Locating { how: BringUp, at: FindStateView },
    Diagnosing,
    CheckingMarker { container: ContainerView, at: MarkerState },
    CheckingUser { container: ContainerView, hook: HookView },
    RunningCommand {
        container: ContainerView,
        hook: HookView,
        user: Option<Seq<char>>,
        index: int,
    },
    Stamping { container: ContainerView, hook: HookView },
    CheckingStart { container: ContainerView },
    CheckingSentinel { container: ContainerView, sentinel: Seq<char> },
}

impl DeepView for UpState {
    type V = UpStateView;

    open spec fn deep_view(&self) -> UpStateView {
        match self {
            UpState::AskingStart => UpStateView::AskingStart,
            UpState::CheckingKind { container } => UpStateView::CheckingKind {
                container: container.deep_view(),
            },
            UpState::CheckingCreated { container, compose } => UpStateView::CheckingCreated {
                container: container.deep_view(),
                compose: *compose,
            },
            UpState::CheckingFile { container, compose, created, file, changed } => {
                UpStateView::CheckingFile {
                    container: container.deep_view(),
                    compose: *compose,
                    created: *created,
                    file: *file as int,
                    changed: changed.deep_view(),
                }
            },
            UpState::AskingRebuild { container, compose, question } => UpStateView::AskingRebuild {
                container: container.deep_view(),
                compose: *compose,
                question: question@,
            },
            UpState::FetchingProject { container } => UpStateView::FetchingProject {
                container: container.deep_view(),
            },
            UpState::Clearing { args } => UpStateView::Clearing { args: args.deep_view() },
            UpState::BringingUp { how } => UpStateView::BringingUp { how: *how },
            UpState::Locating { how, at } => UpStateView::Locating {
                how: *how,
                at: at.deep_view(),
            },
            UpState::Diagnosing => UpStateView::Diagnosing,
            UpState::CheckingMarker { container, at } => UpStateView::CheckingMarker {
                container: container.deep_view(),
                at: *at,
            },
            UpState::CheckingUser { container, hook } => UpStateView::CheckingUser {
                container: container.deep_view(),
                hook: hook.deep_view(),
            },
            UpState::RunningCommand { container, hook, user, index } => {
                UpStateView::RunningCommand {
                    container: container.deep_view(),
                    hook: hook.deep_view(),
                    user: user.deep_view(),
                    index: *index as int,
                }
            },
            UpState::Stamping { container, hook } => UpStateView::Stamping {
                container: container.deep_view(),
                hook: hook.deep_view(),
            },
            UpState::CheckingStart { container } => UpStateView::CheckingStart {
                container: container.deep_view(),
            },
            UpState::CheckingSentinel { container, sentinel } => UpStateView::CheckingSentinel {
                container: container.deep_view(),
                sentinel: sentinel@,
            },
        }
    }
}

/// What comes after the lines of a step were said.
#[derive(Debug)]
pub enum UpNext {
    /// Do what is asked for, then go on from the state with the answer.
    Wait(Request, UpState),
    /// The container to connect to; `None` if the stack is down and is not to
    /// be started.
    Done(Result<Option<Container>, Error>),
}

/// A step on the way up: lines to say on stderr, in order, then what comes
/// next.
#[derive(Debug)]
pub struct UpStep {
    pub say: Vec<String>,
    pub next: UpNext,
}

/// An [`UpNext`] as plain values. What is asked for goes by the state: see
/// [`up_request`].
#[verifier::ext_equal]
pub enum UpNextView {
    Wait(UpStateView),
    Done(Result<Option<ContainerView>, ErrorView>),
}

/// An [`UpStep`] as plain values.
#[verifier::ext_equal]
pub struct UpStepView {
    pub say: Seq<Seq<char>>,
    pub next: UpNextView,
}

impl DeepView for UpNext {
    type V = UpNextView;

    open spec fn deep_view(&self) -> UpNextView {
        match self {
            UpNext::Wait(_, s) => UpNextView::Wait(s.deep_view()),
            UpNext::Done(r) => UpNextView::Done(seen(*r)),
        }
    }
}

impl DeepView for UpStep {
    type V = UpStepView;

    open spec fn deep_view(&self) -> UpStepView {
        UpStepView { say: self.say.deep_view(), next: self.next.deep_view() }
    }
}

/// What a state speaks of is there.
pub open spec fn up_state_fits(dc: DevcontainerView, at: UpStateView) -> bool {
    match at {
        UpStateView::CheckingFile { file, .. } => 0 <= file < stack_of(dc).len(),
        UpStateView::BringingUp { how: BringUp::Image } => dc.image is Some,
        UpStateView::Locating { at, .. } => find_state_fits(dc, at),
        UpStateView::CheckingUser { hook, .. } => dc.remote_user is Some,
        UpStateView::RunningCommand { hook, index, .. } => 0 <= index < hook_commands(
            dc,
            hook,
        ).len(),
        _ => true,
    }
}

/// What a way of bringing the stack up runs.
pub open spec fn bring_up_request(dc: DevcontainerView, how: BringUp) -> RequestView {
    match how {
        BringUp::Compose => RequestView::Run {
            args: up_args(dc),
            dir: Some(config_dir(dc.project_root)),
        },
        BringUp::Recreate => RequestView::Run {
            args: rebuild_args(dc),
            dir: Some(config_dir(dc.project_root)),
        },
        BringUp::Image => RequestView::Run { args: run_args(dc, dc.image->Some_0), dir: None },
    }
}

/// What a state waits for.
pub open spec fn up_request(dc: DevcontainerView, at: UpStateView) -> RequestView {
    match at {
        UpStateView::AskingStart => RequestView::Ask(start_text(dc)),
        UpStateView::CheckingKind { container } => RequestView::Capture(
            project_args(container.id),
        ),
        UpStateView::CheckingCreated { container, .. } => RequestView::Capture(
            created_args(container.id),
        ),
        UpStateView::CheckingFile { file, .. } => RequestView::Modified(stack_of(dc)[file]),
        UpStateView::AskingRebuild { question, .. } => RequestView::Ask(question),
        UpStateView::FetchingProject { container } => RequestView::Capture(
            project_args(container.id),
        ),
        UpStateView::Clearing { args } => RequestView::Capture(args),
        UpStateView::BringingUp { how } => bring_up_request(dc, how),
        UpStateView::Locating { at, .. } => find_request(dc, at),
        UpStateView::Diagnosing => RequestView::Diagnose,
        UpStateView::CheckingMarker { container, at } => marker_request(container.id, at),
        UpStateView::CheckingUser { container, .. } => RequestView::Capture(
            user_args(container.id, dc.remote_user->Some_0),
        ),
        UpStateView::RunningCommand { container, hook, user, index } => RequestView::Run {
            args: exec_command_args(
                container.id,
                user,
                Some(workspace_of(dc)),
                command_argv(hook_commands(dc, hook)[index]),
            ),
            dir: None,
        },
        UpStateView::Stamping { container, hook } => RequestView::Run {
            args: exec_command_args(container.id, None, None, stamp_argv(hook)),
            dir: None,
        },
        UpStateView::CheckingStart { container } => RequestView::Capture(
            started_args(container.id),
        ),
        UpStateView::CheckingSentinel { container, sentinel } => RequestView::Run {
            args: exec_args(container.id, seq!["test"@, "-f"@, sentinel]),
            dir: None,
        },
    }
}

/// Wait in a state.
pub open spec fn wait(say: Seq<Seq<char>>, at: UpStateView) -> UpStepView {
    UpStepView { say, next: UpNextView::Wait(at) }
}

/// The walk is over.
pub open spec fn over(
    say: Seq<Seq<char>>,
    r: Result<Option<ContainerView>, ErrorView>,
) -> UpStepView {
    UpStepView { say, next: UpNextView::Done(r) }
}

// From the hooks backwards: each step is stated by those that come after it.

/// postStart is due, unless there is none.
pub open spec fn to_post_start(
    dc: DevcontainerView,
    say: Seq<Seq<char>>,
    container: ContainerView,
) -> UpStepView {
    if dc.post_start.len() == 0 {
        over(say, Ok(Some(container)))
    } else {
        wait(say, UpStateView::CheckingStart { container })
    }
}

/// A hook is dealt with: postStart comes after postCreate, and nothing after
/// postStart.
pub open spec fn past_hook(
    dc: DevcontainerView,
    say: Seq<Seq<char>>,
    container: ContainerView,
    hook: HookView,
) -> UpStepView {
    match hook {
        HookView::Create => to_post_start(dc, say, container),
        HookView::Start(_) => over(say, Ok(Some(container))),
    }
}

/// The next command of a hook; after the last one, the record that it ran.
pub open spec fn to_command(
    dc: DevcontainerView,
    say: Seq<Seq<char>>,
    container: ContainerView,
    hook: HookView,
    user: Option<Seq<char>>,
    index: int,
) -> UpStepView {
    if index < hook_commands(dc, hook).len() {
        wait(say, UpStateView::RunningCommand { container, hook, user, index })
    } else {
        wait(say, UpStateView::Stamping { container, hook })
    }
}

/// A hook is run, as the declared user where there is one.
pub open spec fn to_hook(
    dc: DevcontainerView,
    say: Seq<Seq<char>>,
    container: ContainerView,
    hook: HookView,
) -> UpStepView {
    let say = say.push(running_text(hook));
    if dc.remote_user is Some {
        wait(say, UpStateView::CheckingUser { container, hook })
    } else {
        to_command(dc, say, container, hook, None, 0)
    }
}

/// The container is there. postCreate is due unless a signal says that it has
/// run; the label of a container that was made just now says nothing yet.
pub open spec fn to_hooks(
    dc: DevcontainerView,
    say: Seq<Seq<char>>,
    container: ContainerView,
    just_made: bool,
) -> UpStepView {
    if dc.post_create.len() == 0 {
        to_post_start(dc, say, container)
    } else {
        let at = if just_made {
            MarkerState::Sentinel
        } else {
            MarkerState::Label
        };
        wait(say, UpStateView::CheckingMarker { container, at })
    }
}

/// A container is made from the image, if one is declared.
pub open spec fn to_image(dc: DevcontainerView, say: Seq<Seq<char>>) -> UpStepView {
    match dc.image {
        Some(image) => wait(
            say.push("\x1b[36mdevcon:\x1b[0m starting container from "@ + image + "…"@),
            UpStateView::BringingUp { how: BringUp::Image },
        ),
        None => over(
            say,
            Err(
                ErrorView::BringUpFailed("no image or dockerComposeFile in devcontainer.json"@),
            ),
        ),
    }
}

/// A stack that is down is brought up.
pub open spec fn to_bring_up(dc: DevcontainerView, say: Seq<Seq<char>>) -> UpStepView {
    if compose_based(dc) {
        wait(
            say.push("\x1b[36mdevcon:\x1b[0m starting compose stack…"@),
            UpStateView::BringingUp { how: BringUp::Compose },
        )
    } else {
        to_image(dc, say)
    }
}

/// The old stack is out of the way: the new one is brought up.
pub open spec fn to_new_stack(dc: DevcontainerView, say: Seq<Seq<char>>) -> UpStepView {
    if compose_based(dc) {
        wait(say, UpStateView::BringingUp { how: BringUp::Recreate })
    } else {
        to_image(dc, say)
    }
}

/// The running stack is recreated. What is torn down goes by what the running
/// container *is*: a standalone container is removed, a compose stack that the
/// config has left behind is brought down whole, and one that it still
/// declares is recreated in place.
pub open spec fn to_rebuild(
    dc: DevcontainerView,
    say: Seq<Seq<char>>,
    container: ContainerView,
    compose: bool,
) -> UpStepView {
    let say = say.push("\x1b[36mdevcon:\x1b[0m rebuilding…"@);
    if compose && !compose_based(dc) {
        wait(say, UpStateView::FetchingProject { container })
    } else if !compose {
        wait(say, UpStateView::Clearing { args: remove_args(container.id) })
    } else {
        to_new_stack(dc, say)
    }
}

/// What changed is known: rebuild, ask, or leave it.
pub open spec fn to_decision(
    dc: DevcontainerView,
    choices: Choices,
    container: ContainerView,
    compose: bool,
    files: Seq<Seq<char>>,
) -> UpStepView {
    let changed = changes(dc, compose, files);
    if changed.len() == 0 {
        to_hooks(dc, seq![], container, false)
    } else if choices.assume_yes {
        to_rebuild(dc, seq![], container, compose)
    } else if !choices.interactive {
        to_hooks(dc, seq![notice_text(changed)], container, false)
    } else {
        wait(
            seq![],
            UpStateView::AskingRebuild { container, compose, question: rebuild_text(changed) },
        )
    }
}

/// The next stack file; after the last one, the decision.
pub open spec fn to_file(
    dc: DevcontainerView,
    choices: Choices,
    container: ContainerView,
    compose: bool,
    created: i64,
    file: int,
    changed: Seq<Seq<char>>,
) -> UpStepView {
    if file < stack_of(dc).len() {
        wait(
            seq![],
            UpStateView::CheckingFile { container, compose, created, file, changed },
        )
    } else {
        to_decision(dc, choices, container, compose, changed)
    }
}

/// The search for the container that came up goes on, or is over.
pub open spec fn to_container(
    dc: DevcontainerView,
    how: BringUp,
    step: FindStepView,
) -> UpStepView {
    match step {
        FindStepView::Wait(_, at) => wait(seq![], UpStateView::Locating { how, at }),
        FindStepView::Done(Ok(Some(container))) => to_hooks(
            dc,
            seq![],
            container,
            how is Image,
        ),
        FindStepView::Done(Ok(None)) => wait(seq![], UpStateView::Diagnosing),
        FindStepView::Done(Err(e)) => over(seq![], Err(ErrorView::Docker(e))),
    }
}

/// What is said of a bring-up that failed.
pub open spec fn bring_up_failure(how: BringUp) -> Seq<char> {
    match how {
        BringUp::Compose => "docker compose up failed"@,
        BringUp::Recreate => "docker compose up --build failed"@,
        BringUp::Image => "docker run failed"@,
    }
}

/// The first step.
pub open spec fn up_start(
    dc: DevcontainerView,
    existing: Option<ContainerView>,
    choices: Choices,
) -> UpStepView {
    match existing {
        Some(container) => if choices.rebuild == Rebuild::Never {
            to_hooks(dc, seq![], container, false)
        } else {
            wait(seq![], UpStateView::CheckingKind { container })
        },
        None => if choices.assume_yes {
            to_bring_up(dc, seq![])
        } else if !choices.interactive {
            over(seq![], Ok(None))
        } else {
            wait(seq![], UpStateView::AskingStart)
        },
    }
}

/// The step from a state with the answer that it waited for.
pub open spec fn up_next(
    dc: DevcontainerView,
    choices: Choices,
    at: UpStateView,
    reply: ReplyView,
) -> UpStepView {
    match at {
        UpStateView::AskingStart => match reply->Line_0 {
            Ok(line) => if is_yes_or_empty(line) {
                to_bring_up(dc, seq![])
            } else {
                over(seq![], Ok(None))
            },
            Err(why) => over(seq![], Err(ErrorView::Io(why))),
        },
        UpStateView::CheckingKind { container } => {
            let compose = stated_label(
                captured_text(project_args(container.id), reply->Ran_0),
            ) is Some;
            if choices.rebuild == Rebuild::Force {
                to_rebuild(dc, seq![], container, compose)
            } else {
                wait(seq![], UpStateView::CheckingCreated { container, compose })
            }
        },
        UpStateView::CheckingCreated { container, compose } => {
            let created = match stated(captured_text(created_args(container.id), reply->Ran_0)) {
                Some(s) => timestamp(s),
                None => None,
            };
            match created {
                Some(secs) => to_file(
                    dc,
                    choices,
                    container,
                    compose,
                    secs as i64,
                    0,
                    seq![],
                ),
                None => to_decision(dc, choices, container, compose, seq![]),
            }
        },
        UpStateView::CheckingFile { container, compose, created, file, changed } => {
            let changed = if newer(reply->Seconds_0, created) {
                changed.push(shown(stack_of(dc)[file], dc.project_root))
            } else {
                changed
            };
            to_file(dc, choices, container, compose, created, file + 1, changed)
        },
        UpStateView::AskingRebuild { container, compose, .. } => match reply->Line_0 {
            Ok(line) => if is_yes(line) {
                to_rebuild(dc, seq![], container, compose)
            } else {
                to_hooks(dc, seq![], container, false)
            },
            Err(why) => over(seq![], Err(ErrorView::Io(why))),
        },
        UpStateView::FetchingProject { container } => match stated_label(
            captured_text(project_args(container.id), reply->Ran_0),
        ) {
            Some(project) => wait(
                seq!["\x1b[36mdevcon:\x1b[0m removing old compose stack '"@ + project + "'…"@],
                UpStateView::Clearing { args: compose_down_args(project) },
            ),
            None => wait(seq![], UpStateView::Clearing { args: remove_args(container.id) }),
        },
        UpStateView::Clearing { args } => match captured(args, reply->Ran_0) {
            Ok(_) => to_new_stack(dc, seq![]),
            Err(e) => over(seq![], Err(ErrorView::Docker(e))),
        },
        UpStateView::BringingUp { how } => match ran(reply->Ran_0) {
            Ok(true) => wait(
                seq![],
                UpStateView::Locating { how, at: FindStateView::Listing },
            ),
            Ok(false) => over(seq![], Err(ErrorView::BringUpFailed(bring_up_failure(how)))),
            Err(e) => over(seq![], Err(e)),
        },
        UpStateView::Locating { how, at } => to_container(dc, how, find_next(dc, at, reply)),
        UpStateView::Diagnosing => over(
            seq![],
            Err(ErrorView::NotUpAfterStart(reply->Text_0)),
        ),
        UpStateView::CheckingMarker { container, at } => match marker_next(
            container.id,
            at,
            reply,
        ) {
            MarkerStepView::Wait(_, at) => wait(
                seq![],
                UpStateView::CheckingMarker { container, at },
            ),
            MarkerStepView::Done(true) => to_post_start(dc, seq![], container),
            MarkerStepView::Done(false) => to_hook(dc, seq![], container, HookView::Create),
        },
        UpStateView::CheckingUser { container, hook } => {
            let user = dc.remote_user->Some_0;
            if user_found(reply->Ran_0) {
                to_command(dc, seq![], container, hook, Some(user), 0)
            } else {
                to_command(dc, seq![user_warning(user)], container, hook, None, 0)
            }
        },
        UpStateView::RunningCommand { container, hook, user, index } => match status_of(
            reply->Ran_0,
        ) {
            Ok(true) => to_command(dc, seq![], container, hook, user, index + 1),
            Ok(false) => past_hook(
                dc,
                seq![
                    warning_text(
                        ErrorView::LifecycleFailed(
                            hook_name(hook),
                            command_text(hook_commands(dc, hook)[index]),
                        ),
                    ),
                ],
                container,
                hook,
            ),
            Err(e) => past_hook(dc, seq![warning_text(ErrorView::Docker(e))], container, hook),
        },
        UpStateView::Stamping { container, hook } => past_hook(dc, seq![], container, hook),
        UpStateView::CheckingStart { container } => {
            let started = stated(captured_text(started_args(container.id), reply->Ran_0));
            wait(
                seq![],
                UpStateView::CheckingSentinel { container, sentinel: start_sentinel(started) },
            )
        },
        UpStateView::CheckingSentinel { container, sentinel } => if status_of(reply->Ran_0) == Ok::<
            bool,
            crate::docker::ErrorView,
        >(true) {
            over(seq![], Ok(Some(container)))
        } else {
            to_hook(dc, seq![], container, HookView::Start(sentinel))
        },
    }
}

/// What a step asks for is what the state that it waits in calls for, and what
/// that state speaks of is there.
pub open spec fn up_step_fits(dc: DevcontainerView, step: UpStep) -> bool {
    match step.next {
        UpNext::Wait(request, at) => up_state_fits(dc, at.deep_view()) && request.deep_view()
            == up_request(dc, at.deep_view()),
        UpNext::Done(_) => true,
    }
}

// ---------------------------------------------------------------------------
// The walk
// ---------------------------------------------------------------------------

/// One more line to say.
fn and_say(say: Vec<String>, line: String) -> (r: Vec<String>)
    ensures
        r.deep_view() == say.deep_view().push(line@),
{
    let ghost had = say.deep_view();
    let mut r = say;
    r.push(line);
    assert(r.deep_view() == had.push(line@));
    r
}

/// Nothing to say.
fn silence() -> (r: Vec<String>)
    ensures
        r.deep_view() == Seq::<Seq<char>>::empty(),
{
    let r: Vec<String> = Vec::new();
    assert(r.deep_view() == Seq::<Seq<char>>::empty());
    r
}

fn done(say: Vec<String>, r: Result<Option<Container>, Error>) -> (step: UpStep)
    ensures
        step.deep_view() == over(say.deep_view(), seen(r)),
        step.next is Done,
{
    UpStep { say, next: UpNext::Done(r) }
}

fn go_post_start(dc: &Devcontainer, say: Vec<String>, container: Container) -> (r: UpStep)
    ensures
        r.deep_view() == to_post_start(dc.deep_view(), say.deep_view(), container.deep_view()),
        up_step_fits(dc.deep_view(), r),
{
    if dc.post_start.is_empty() {
        done(say, Ok(Some(container)))
    } else {
        let request = Request::Capture(started_at_args(&container));
        UpStep { say, next: UpNext::Wait(request, UpState::CheckingStart { container }) }
    }
}

fn go_past_hook(dc: &Devcontainer, say: Vec<String>, container: Container, hook: &Hook) -> (r:
    UpStep)
    ensures
        r.deep_view() == past_hook(
            dc.deep_view(),
            say.deep_view(),
            container.deep_view(),
            hook.deep_view(),
        ),
        up_step_fits(dc.deep_view(), r),
{
    match hook {
        Hook::Create => go_post_start(dc, say, container),
        Hook::Start(_) => done(say, Ok(Some(container))),
    }
}

/// Run the commands of a hook one by one, in the workspace folder, then record
/// that it ran.
fn go_command(
    dc: &Devcontainer,
    say: Vec<String>,
    container: Container,
    hook: Hook,
    user: Option<String>,
    index: usize,
) -> (r: UpStep)
    ensures
        r.deep_view() == to_command(
            dc.deep_view(),
            say.deep_view(),
            container.deep_view(),
            hook.deep_view(),
            user.deep_view(),
            index as int,
        ),
        up_step_fits(dc.deep_view(), r),
{
    let commands = hook.commands(dc);
    if index < commands.len() {
        assert(commands.deep_view()[index as int] == commands@[index as int].deep_view());
        let workdir = dc.resolved_workspace_folder();
        let run_as: Option<&str> = match &user {
            Some(u) => Some(u.as_str()),
            None => None,
        };
        let args = exec_command(
            &container,
            run_as,
            Some(workdir.as_str()),
            &argv(&commands[index]),
        );
        UpStep {
            say,
            next: UpNext::Wait(
                Request::Run { args, dir: None },
                UpState::RunningCommand { container, hook, user, index },
            ),
        }
    } else {
        let args = exec_command(&container, None, None, &hook.stamp());
        UpStep {
            say,
            next: UpNext::Wait(
                Request::Run { args, dir: None },
                UpState::Stamping { container, hook },
            ),
        }
    }
}

fn go_hook(dc: &Devcontainer, container: Container, hook: Hook) -> (r: UpStep)
    ensures
        r.deep_view() == to_hook(
            dc.deep_view(),
            seq![],
            container.deep_view(),
            hook.deep_view(),
        ),
        up_step_fits(dc.deep_view(), r),
{
    let say = and_say(silence(), announce(&hook));
    match &dc.remote_user {
        Some(user) => {
            let request = Request::Capture(user_exists_args(&container, user.as_str()));
            UpStep { say, next: UpNext::Wait(request, UpState::CheckingUser { container, hook }) }
        },
        None => go_command(dc, say, container, hook, None, 0),
    }
}

fn go_hooks(dc: &Devcontainer, say: Vec<String>, container: Container, just_made: bool) -> (r:
    UpStep)
    ensures
        r.deep_view() == to_hooks(
            dc.deep_view(),
            say.deep_view(),
            container.deep_view(),
            just_made,
        ),
        up_step_fits(dc.deep_view(), r),
{
    if dc.post_create.is_empty() {
        return go_post_start(dc, say, container);
    }
    let step = if just_made {
        has_marker_file(&container)
    } else {
        has_marker(&container)
    };
    match step {
        MarkerStep::Wait(request, at) => UpStep {
            say,
            next: UpNext::Wait(request, UpState::CheckingMarker { container, at }),
        },
        MarkerStep::Done(_) => go_post_start(dc, say, container),
    }
}

fn go_image(dc: &Devcontainer, say: Vec<String>) -> (r: UpStep)
    ensures
        r.deep_view() == to_image(dc.deep_view(), say.deep_view()),
        up_step_fits(dc.deep_view(), r),
{
    match &dc.image {
        Some(image) => {
            let mut line: String = "\x1b[36mdevcon:\x1b[0m starting container from ".to_owned();
            line.append(image.as_str());
            line.append("…");
            let request = Request::Run { args: bring_up_image(dc, image.as_str()), dir: None };
            UpStep {
                say: and_say(say, line),
                next: UpNext::Wait(request, UpState::BringingUp { how: BringUp::Image }),
            }
        },
        None => {
            let msg: String = "no image or dockerComposeFile in devcontainer.json".to_owned();
            done(say, Err(Error::BringUpFailed(msg)))
        },
    }
}

/// Bring the container up: `docker compose up -d` for compose stacks, or
/// `docker run` for image-based ones.
fn bring_up(dc: &Devcontainer) -> (r: UpStep)
    ensures
        r.deep_view() == to_bring_up(dc.deep_view(), seq![]),
        up_step_fits(dc.deep_view(), r),
{
    if !dc.is_compose() {
        return go_image(dc, silence());
    }
    let line: String = "\x1b[36mdevcon:\x1b[0m starting compose stack…".to_owned();
    let dir = Some(join(dc.project_root.as_str(), ".devcontainer"));
    let request = Request::Run { args: bring_up_compose(dc), dir };
    UpStep {
        say: and_say(silence(), line),
        next: UpNext::Wait(request, UpState::BringingUp { how: BringUp::Compose }),
    }
}

fn go_new_stack(dc: &Devcontainer, say: Vec<String>) -> (r: UpStep)
    ensures
        r.deep_view() == to_new_stack(dc.deep_view(), say.deep_view()),
        up_step_fits(dc.deep_view(), r),
{
    if !dc.is_compose() {
        return go_image(dc, say);
    }
    let dir = Some(join(dc.project_root.as_str(), ".devcontainer"));
    let request = Request::Run { args: rebuild_compose(dc), dir };
    UpStep { say, next: UpNext::Wait(request, UpState::BringingUp { how: BringUp::Recreate }) }
}

/// Recreate the container so that stack changes take effect.
///
/// The old stack is torn down according to what the running container
/// *actually* is (`compose`), which may differ from what the config now
/// declares. This is what stops an image/compose switch from leaving an
/// orphaned old container that a later search would reattach to.
fn rebuild_stack(dc: &Devcontainer, container: Container, compose: bool) -> (r: UpStep)
    ensures
        r.deep_view() == to_rebuild(dc.deep_view(), seq![], container.deep_view(), compose),
        up_step_fits(dc.deep_view(), r),
{
    let say = and_say(silence(), "\x1b[36mdevcon:\x1b[0m rebuilding…".to_owned());
    if compose && !dc.is_compose() {
        let request = Request::Capture(compose_project_args(&container));
        UpStep { say, next: UpNext::Wait(request, UpState::FetchingProject { container }) }
    } else if !compose {
        clear(say, remove(&container))
    } else {
        go_new_stack(dc, say)
    }
}

fn clear(say: Vec<String>, args: Vec<String>) -> (r: UpStep)
    ensures
        r.deep_view() == wait(say.deep_view(), UpStateView::Clearing { args: args.deep_view() }),
        forall|dc: DevcontainerView| #[trigger] up_step_fits(dc, r),
{
    let again = crate::text::copy(&args);
    UpStep { say, next: UpNext::Wait(Request::Capture(again), UpState::Clearing { args }) }
}

/// Bring the old compose stack down by its project label. Used only on a
/// compose-to-image switch, where the current (image-based) config no longer
/// knows the compose files. Falls back to removing just the discovered
/// container if the label is somehow absent.
fn tear_down_old_compose(container: Container, project: Option<String>) -> (r: UpStep)
    ensures
        r.deep_view() == match project.deep_view() {
            Some(project) => wait(
                seq!["\x1b[36mdevcon:\x1b[0m removing old compose stack '"@ + project + "'…"@],
                UpStateView::Clearing { args: compose_down_args(project) },
            ),
            None => wait(
                seq![],
                UpStateView::Clearing { args: remove_args(container.deep_view().id) },
            ),
        },
        forall|dc: DevcontainerView| #[trigger] up_step_fits(dc, r),
{
    match project {
        Some(project) => {
            let mut line: String = "\x1b[36mdevcon:\x1b[0m removing old compose stack '".to_owned();
            line.append(project.as_str());
            line.append("'…");
            clear(and_say(silence(), line), compose_down_project(project.as_str()))
        },
        None => clear(silence(), remove(&container)),
    }
}

/// Recreate the running container when the stack has drifted, as far as the
/// caller and the user want that.
fn go_decision(
    dc: &Devcontainer,
    choices: Choices,
    container: Container,
    compose: bool,
    files: Vec<String>,
) -> (r: UpStep)
    ensures
        r.deep_view() == to_decision(
            dc.deep_view(),
            choices,
            container.deep_view(),
            compose,
            files.deep_view(),
        ),
        up_step_fits(dc.deep_view(), r),
{
    let changed = all_changes(dc, compose, files);
    assert(changed.deep_view().len() == changed.len());
    if changed.is_empty() {
        go_hooks(dc, silence(), container, false)
    } else if choices.assume_yes {
        rebuild_stack(dc, container, compose)
    } else if !choices.interactive {
        // Never silently drop someone's container from a script.
        let say = and_say(silence(), drift_notice(&changed));
        go_hooks(dc, say, container, false)
    } else {
        let question = rebuild_question(&changed);
        let request = Request::Ask(question.clone());
        UpStep {
            say: silence(),
            next: UpNext::Wait(request, UpState::AskingRebuild { container, compose, question }),
        }
    }
}

fn go_file(
    dc: &Devcontainer,
    choices: Choices,
    container: Container,
    compose: bool,
    created: i64,
    file: usize,
    changed: Vec<String>,
) -> (r: UpStep)
    ensures
        r.deep_view() == to_file(
            dc.deep_view(),
            choices,
            container.deep_view(),
            compose,
            created,
            file as int,
            changed.deep_view(),
        ),
        up_step_fits(dc.deep_view(), r),
{
    let files = dc.stack_files();
    if file < files.len() {
        assert(files.deep_view()[file as int] == files@[file as int]@);
        let request = Request::Modified(files[file].clone());
        UpStep {
            say: silence(),
            next: UpNext::Wait(
                request,
                UpState::CheckingFile { container, compose, created, file, changed },
            ),
        }
    } else {
        go_decision(dc, choices, container, compose, changed)
    }
}

/// A stack file whose modification time is known: it goes on the list of the
/// drifted ones if it is newer than the container.
fn drifted_file(
    dc: &Devcontainer,
    modified: Option<i64>,
    created: i64,
    file: usize,
    changed: Vec<String>,
) -> (r: Vec<String>)
    requires
        file < stack_of(dc.deep_view()).len(),
    ensures
        r.deep_view() == if newer(modified, created) {
            changed.deep_view().push(
                shown(stack_of(dc.deep_view())[file as int], dc.project_root@),
            )
        } else {
            changed.deep_view()
        },
{
    if !file_newer_than(modified, created) {
        return changed;
    }
    let files = dc.stack_files();
    assert(files.deep_view()[file as int] == files@[file as int]@);
    and_say(changed, display_relative(files[file].as_str(), dc.project_root.as_str()))
}

fn go_container(dc: &Devcontainer, how: BringUp, step: FindStep) -> (r: UpStep)
    requires
        step matches FindStep::Wait(request, at) ==> find_state_fits(dc.deep_view(), at.deep_view())
            && request.deep_view() == find_request(dc.deep_view(), at.deep_view()),
    ensures
        r.deep_view() == to_container(dc.deep_view(), how, step.deep_view()),
        up_step_fits(dc.deep_view(), r),
{
    match step {
        FindStep::Wait(request, at) => UpStep {
            say: silence(),
            next: UpNext::Wait(request, UpState::Locating { how, at }),
        },
        FindStep::Done(Ok(Some(container))) => {
            let just_made = match how {
                BringUp::Image => true,
                _ => false,
            };
            go_hooks(dc, silence(), container, just_made)
        },
        FindStep::Done(Ok(None)) => UpStep {
            say: silence(),
            next: UpNext::Wait(Request::Diagnose, UpState::Diagnosing),
        },
        FindStep::Done(Err(e)) => done(silence(), Err(Error::Docker(e))),
    }
}

/// Bring the stack up if needed and ensure that lifecycle hooks have run: the
/// first step.
///
/// In order:
///   - rebuild-on-drift: if the running container predates an edit to a stack
///     file (`devcontainer.json`, a compose file, the Dockerfile), or is of
///     another kind than the config declares, recreate it so that the change
///     takes effect (prompting first, unless forced).
///   - `postCreateCommand`: once per container *creation*.
///   - `postStartCommand`: once per container *start*.
///
/// A hook that fails is warned about and is not fatal. The end is `Ok(None)`
/// if the stack is down and is not to be started.
pub fn ensure_up(dc: &Devcontainer, existing: Option<Container>, choices: Choices) -> (r: UpStep)
    ensures
        r.deep_view() == up_start(dc.deep_view(), existing.deep_view(), choices),
        up_step_fits(dc.deep_view(), r),
{
    match existing {
        Some(container) => {
            if choices.rebuild == Rebuild::Never {
                return go_hooks(dc, silence(), container, false);
            }
            let request = Request::Capture(compose_project_args(&container));
            UpStep {
                say: silence(),
                next: UpNext::Wait(request, UpState::CheckingKind { container }),
            }
        },
        None => {
            if choices.assume_yes {
                bring_up(dc)
            } else if !choices.interactive {
                done(silence(), Ok(None))
            } else {
                let request = Request::Ask(start_question(dc));
                UpStep { say: silence(), next: UpNext::Wait(request, UpState::AskingStart) }
            }
        },
    }
}

/// Go on with a command of a hook by how the one before ended.
#[verifier::rlimit(40)]
fn command_ended(
    dc: &Devcontainer,
    choices: Choices,
    container: Container,
    hook: Hook,
    user: Option<String>,
    index: usize,
    outcome: Outcome,
) -> (r: UpStep)
    requires
        index < hook_commands(dc.deep_view(), hook.deep_view()).len(),
    ensures
        r.deep_view() == up_next(
            dc.deep_view(),
            choices,
            UpStateView::RunningCommand {
                container: container.deep_view(),
                hook: hook.deep_view(),
                user: user.deep_view(),
                index: index as int,
            },
            ReplyView::Ran(outcome.deep_view()),
        ),
        up_step_fits(dc.deep_view(), r),
{
    let e = match run_status(outcome) {
        Ok(true) => {
            let commands = hook.commands(dc);
            assert(index < commands.len());
            return go_command(dc, silence(), container, hook, user, index + 1);
        },
        Ok(false) => {
            let commands = hook.commands(dc);
            assert(commands.deep_view()[index as int] == commands@[index as int].deep_view());
            Error::LifecycleFailed(hook.name(), describe(&commands[index]))
        },
        Err(e) => Error::Docker(e),
    };
    let say = and_say(silence(), warn_lifecycle(&e));
    go_past_hook(dc, say, container, &hook)
}

/// Go on from a state, outside the search, that waited for a program to be
/// run.
#[verifier::rlimit(40)]
fn ran_on(dc: &Devcontainer, choices: Choices, at: UpState, outcome: Outcome) -> (r: UpStep)
    requires
        !(at is Locating),
        up_state_fits(dc.deep_view(), at.deep_view()),
        answers(
            ReplyView::Ran(outcome.deep_view()),
            up_request(dc.deep_view(), at.deep_view()),
        ),
    ensures
        r.deep_view() == up_next(
            dc.deep_view(),
            choices,
            at.deep_view(),
            ReplyView::Ran(outcome.deep_view()),
        ),
        up_step_fits(dc.deep_view(), r),
{
    match at {
        UpState::CheckingKind { container } => {
            let answer = run_docker_text(&compose_project_args(&container), outcome);
            let compose = is_compose_container(&answer);
            if choices.rebuild == Rebuild::Force {
                return rebuild_stack(dc, container, compose);
            }
            let request = Request::Capture(created_at_args(&container));
            UpStep {
                say: silence(),
                next: UpNext::Wait(request, UpState::CheckingCreated { container, compose }),
            }
        },
        UpState::CheckingCreated { container, compose } => {
            let answer = run_docker_text(&created_at_args(&container), outcome);
            let created: Option<i64> = match created_at(&answer) {
                Some(s) => parse_rfc3339_secs(s.as_str()),
                None => None,
            };
            match created {
                Some(secs) => go_file(dc, choices, container, compose, secs, 0, silence()),
                None => go_decision(dc, choices, container, compose, silence()),
            }
        },
        UpState::FetchingProject { container } => {
            let answer = run_docker_text(&compose_project_args(&container), outcome);
            tear_down_old_compose(container, compose_project(&answer))
        },
        UpState::Clearing { args } => match run_docker(&args, outcome) {
            Ok(_) => go_new_stack(dc, silence()),
            Err(e) => done(silence(), Err(Error::Docker(e))),
        },
        UpState::BringingUp { how } => match exited_well(outcome) {
            Ok(true) => go_container(dc, how, find(dc)),
            Ok(false) => {
                let msg: &str = match how {
                    BringUp::Compose => "docker compose up failed",
                    BringUp::Recreate => "docker compose up --build failed",
                    BringUp::Image => "docker run failed",
                };
                done(silence(), Err(Error::BringUpFailed(msg.to_owned())))
            },
            Err(e) => done(silence(), Err(e)),
        },
        UpState::CheckingMarker { container, at } => {
            match has_marker_on(&container, at, Reply::Ran(outcome)) {
                MarkerStep::Wait(request, at) => UpStep {
                    say: silence(),
                    next: UpNext::Wait(request, UpState::CheckingMarker { container, at }),
                },
                MarkerStep::Done(true) => go_post_start(dc, silence(), container),
                MarkerStep::Done(false) => go_hook(dc, container, Hook::Create),
            }
        },
        UpState::CheckingUser { container, hook } => {
            let declared: &str = match &dc.remote_user {
                Some(user) => user.as_str(),
                None => "",
            };
            match resolve_user(declared, &outcome) {
                Ok(user) => go_command(dc, silence(), container, hook, Some(user), 0),
                Err(warning) => {
                    let say = and_say(silence(), warning);
                    go_command(dc, say, container, hook, None, 0)
                },
            }
        },
        UpState::RunningCommand { container, hook, user, index } => {
            command_ended(dc, choices, container, hook, user, index, outcome)
        },
        UpState::Stamping { container, hook } => go_past_hook(dc, silence(), container, &hook),
        UpState::CheckingStart { container } => {
            let answer = run_docker_text(&started_at_args(&container), outcome);
            let started = started_at(&answer);
            let sentinel = match &started {
                Some(s) => post_start_sentinel(Some(s.as_str())),
                None => post_start_sentinel(None),
            };
            let test = strings(&["test", "-f", sentinel.as_str()]);
            assert(test.deep_view() == seq!["test"@, "-f"@, sentinel@]);
            let request = Request::Run { args: exec_status(&container, &test), dir: None };
            UpStep {
                say: silence(),
                next: UpNext::Wait(request, UpState::CheckingSentinel { container, sentinel }),
            }
        },
        UpState::CheckingSentinel { container, sentinel } => match run_status(outcome) {
            Ok(true) => done(silence(), Ok(Some(container))),
            _ => go_hook(dc, container, Hook::Start(sentinel)),
        },
        _ => done(silence(), Ok(None)),
    }
}

/// Go on from a state, with the answer that it waited for.
#[verifier::rlimit(40)]
pub fn ensure_up_on(dc: &Devcontainer, choices: Choices, at: UpState, reply: Reply) -> (r: UpStep)
    requires
        up_state_fits(dc.deep_view(), at.deep_view()),
        answers(reply.deep_view(), up_request(dc.deep_view(), at.deep_view())),
    ensures
        r.deep_view() == up_next(dc.deep_view(), choices, at.deep_view(), reply.deep_view()),
        up_step_fits(dc.deep_view(), r),
{
    match (at, reply) {
        (UpState::AskingStart, Reply::Line(line)) => match line {
            Ok(line) => {
                if confirm_start(line.as_str()) {
                    bring_up(dc)
                } else {
                    done(silence(), Ok(None))
                }
            },
            Err(why) => done(silence(), Err(Error::Io(why))),
        },
        (
            UpState::CheckingFile { container, compose, created, file, changed },
            Reply::Seconds(modified),
        ) => {
            let changed = drifted_file(dc, modified, created, file, changed);
            let files = dc.stack_files();
            assert(file < files.len());
            go_file(dc, choices, container, compose, created, file + 1, changed)
        },
        (UpState::AskingRebuild { container, compose, .. }, Reply::Line(line)) => match line {
            Ok(line) => {
                if confirm_rebuild(line.as_str()) {
                    rebuild_stack(dc, container, compose)
                } else {
                    go_hooks(dc, silence(), container, false)
                }
            },
            Err(why) => done(silence(), Err(Error::Io(why))),
        },
        (UpState::Locating { how, at }, reply) => {
            let step = find_on(dc, at, reply);
            go_container(dc, how, step)
        },
        (UpState::Diagnosing, Reply::Text(detail)) => {
            done(silence(), Err(Error::NotUpAfterStart(detail)))
        },
        (at, Reply::Ran(outcome)) => ran_on(dc, choices, at, outcome),
        _ => done(silence(), Ok(None)),
    }
}

} // verus!

//! What holds of the way up as a whole, whatever the outside world answers.

use super::drift::{changes, is_yes, newer, notice_text, shown};
use super::hooks::{command_argv, hook_commands, stamp_argv, start_sentinel, HookView};
use super::stack::{composes, law_compose_command_lines, law_image_command_line};
use super::up::{
    over, to_command, to_container, to_decision, to_file, to_hook, to_hooks, to_rebuild, up_next,
    up_request, up_start, up_state_fits, wait, BringUp, Choices, UpNextView, UpStateView, UpStepView,
};
use super::{ran, Rebuild};
use crate::devcontainer::{
    compose_based, law_stack_files, stack_of, workspace_of, CommandView, DevcontainerView,
};
use crate::docker::container::{
    exec_args, exec_command_args, law_container_is_named, law_exec_command_line,
    law_marker_has_two_signals, marker_next, user_found, MarkerState, MarkerStepView,
};
use crate::docker::find::{
    find_next, find_rank, find_state_fits, law_find_goes_on, FindStateView, FindStepView,
};
use crate::docker::{captured, status_of, ContainerView, ErrorView, MARKER_SENTINEL};
use crate::path::{above, under};
use crate::request::{utf8_lossy, OutcomeView, ReplyView, RequestView};
use crate::text::{joined, law_joined_holds_each, lemma_occurs_inside, occurs, trimmed};
use crate::timestamp::timestamp;
use vstd::prelude::*;

verus! {

// ---------------------------------------------------------------------------
// Runs
// ---------------------------------------------------------------------------

/// Where the walk stands after the given answers.
pub open spec fn up_run(
    dc: DevcontainerView,
    choices: Choices,
    step: UpStepView,
    replies: Seq<ReplyView>,
) -> UpStepView
    decreases replies.len(),
{
    match step.next {
        UpNextView::Wait(at) => if replies.len() == 0 {
            step
        } else {
            up_run(dc, choices, up_next(dc, choices, at, replies[0]), replies.skip(1))
        },
        UpNextView::Done(_) => step,
    }
}

/// The states that the walk waits in, in order: state `i` is given answer `i`.
pub open spec fn up_trace(
    dc: DevcontainerView,
    choices: Choices,
    step: UpStepView,
    replies: Seq<ReplyView>,
) -> Seq<UpStateView>
    decreases replies.len(),
{
    match step.next {
        UpNextView::Wait(at) => if replies.len() == 0 {
            seq![at]
        } else {
            seq![at] + up_trace(
                dc,
                choices,
                up_next(dc, choices, at, replies[0]),
                replies.skip(1),
            )
        },
        UpNextView::Done(_) => seq![],
    }
}

// ---------------------------------------------------------------------------
// Containers are not dropped behind anyone's back
// ---------------------------------------------------------------------------

/// A state in which a container is removed, or recreated in place.
pub open spec fn drops(at: UpStateView) -> bool {
    at is Clearing || at matches UpStateView::BringingUp { how: BringUp::Recreate }
}

/// A state from which no container is dropped without a yes.
spec fn calm(choices: Choices, at: UpStateView) -> bool {
    &&& !drops(at)
    &&& !(at is FetchingProject)
    &&& choices.rebuild == Rebuild::Never ==> !(at is CheckingKind || at is CheckingCreated
        || at is CheckingFile || at is AskingRebuild)
    &&& !choices.interactive ==> !(at is AskingRebuild)
}

/// The user said yes to a rebuild.
pub open spec fn agrees(at: UpStateView, reply: ReplyView) -> bool {
    at is AskingRebuild && match reply->Line_0 {
        Ok(line) => is_yes(line),
        Err(_) => false,
    }
}

spec fn calm_step(choices: Choices, step: UpStepView) -> bool {
    match step.next {
        UpNextView::Wait(at) => calm(choices, at),
        UpNextView::Done(_) => true,
    }
}

#[verifier::rlimit(40)]
proof fn lemma_calm_next(
    dc: DevcontainerView,
    choices: Choices,
    at: UpStateView,
    reply: ReplyView,
)
    requires
        choices.rebuild != Rebuild::Force,
        choices.rebuild == Rebuild::Never || !choices.assume_yes,
        calm(choices, at),
        !agrees(at, reply),
    ensures
        calm_step(choices, up_next(dc, choices, at, reply)),
{
    if let UpStateView::Locating { how, at } = at {
        lemma_calm_container(dc, choices, how, find_next(dc, at, reply));
    }
}

proof fn lemma_calm_container(
    dc: DevcontainerView,
    choices: Choices,
    how: BringUp,
    step: FindStepView,
)
    ensures
        calm_step(choices, to_container(dc, how, step)),
{
}

#[verifier::rlimit(40)]
proof fn lemma_calm_run(
    dc: DevcontainerView,
    choices: Choices,
    step: UpStepView,
    replies: Seq<ReplyView>,
    n: int,
)
    requires
        choices.rebuild != Rebuild::Force,
        choices.rebuild == Rebuild::Never || !choices.assume_yes,
        calm_step(choices, step),
        0 <= n < up_trace(dc, choices, step, replies).len(),
        drops(up_trace(dc, choices, step, replies)[n]),
    ensures
        exists|k: int|
            0 <= k < n && k < replies.len() && agrees(
                #[trigger] up_trace(dc, choices, step, replies)[k],
                replies[k],
            ),
        choices.rebuild != Rebuild::Never,
        choices.interactive,
    decreases replies.len(),
{
    let trace = up_trace(dc, choices, step, replies);
    let at = step.next->Wait_0;
    assert(trace[0] == at);
    assert(n > 0);
    let next = up_next(dc, choices, at, replies[0]);
    if agrees(at, replies[0]) {
        assert(agrees(trace[0], replies[0]));
    } else {
        lemma_calm_next(dc, choices, at, replies[0]);
        let rest = up_trace(dc, choices, next, replies.skip(1));
        assert(trace == seq![at] + rest);
        assert(rest[n - 1] == trace[n]);
        lemma_calm_run(dc, choices, next, replies.skip(1), n - 1);
        let k = choose|k: int|
            0 <= k < n - 1 && k < replies.skip(1).len() && agrees(
                #[trigger] rest[k],
                replies.skip(1)[k],
            );
        assert(trace[k + 1] == rest[k]);
        assert(agrees(trace[k + 1], replies[k + 1]));
    }
}

/// Unless told so by `--rebuild` or `-y`, no container is dropped before the
/// user said yes to a rebuild; and so none is when nobody can be asked, or
/// with `--no-rebuild`.
pub proof fn law_drop_needs_yes(
    dc: DevcontainerView,
    existing: Option<ContainerView>,
    choices: Choices,
    replies: Seq<ReplyView>,
    n: int,
)
    requires
        choices.rebuild != Rebuild::Force,
        choices.rebuild == Rebuild::Never || !choices.assume_yes,
        0 <= n < up_trace(dc, choices, up_start(dc, existing, choices), replies).len(),
        drops(up_trace(dc, choices, up_start(dc, existing, choices), replies)[n]),
    ensures
        choices.rebuild != Rebuild::Never,
        choices.interactive,
        exists|k: int|
            0 <= k < n && k < replies.len() && agrees(
                #[trigger] up_trace(dc, choices, up_start(dc, existing, choices), replies)[k],
                replies[k],
            ),
{
    lemma_calm_run(dc, choices, up_start(dc, existing, choices), replies, n);
}

/// With no container, no `-y` and nobody to ask, nothing at all is done.
pub proof fn law_scripts_start_nothing(dc: DevcontainerView, choices: Choices)
    requires
        !choices.assume_yes,
        !choices.interactive,
    ensures
        up_start(dc, None, choices) == over(seq![], Ok(None)),
{
}

// ---------------------------------------------------------------------------
// Rebuilding
// ---------------------------------------------------------------------------

/// A bring-up that went well.
pub open spec fn came_up(at: UpStateView, reply: ReplyView) -> bool {
    at is BringingUp && ran(reply->Ran_0) == Ok::<bool, super::ErrorView>(true)
}

spec fn before_up(at: UpStateView) -> bool {
    at is FetchingProject || at is Clearing || at is BringingUp
}

#[verifier::rlimit(40)]
proof fn lemma_before_up(
    dc: DevcontainerView,
    choices: Choices,
    step: UpStepView,
    replies: Seq<ReplyView>,
)
    requires
        match step.next {
            UpNextView::Wait(at) => before_up(at) || (at is CheckingKind && choices.rebuild
                == Rebuild::Force),
            UpNextView::Done(r) => r is Err,
        },
    ensures
        up_run(dc, choices, step, replies).next matches UpNextView::Done(Ok(_)) ==> exists|n: int|
            0 <= n < replies.len() && n < up_trace(dc, choices, step, replies).len() && came_up(
                #[trigger] up_trace(dc, choices, step, replies)[n],
                replies[n],
            ),
    decreases replies.len(),
{
    if step.next is Wait && replies.len() > 0 {
        let at = step.next->Wait_0;
        let trace = up_trace(dc, choices, step, replies);
        let next = up_next(dc, choices, at, replies[0]);
        let rest = up_trace(dc, choices, next, replies.skip(1));
        assert(trace == seq![at] + rest);
        if came_up(at, replies[0]) {
            assert(came_up(trace[0], replies[0]));
        } else {
            lemma_before_up(dc, choices, next, replies.skip(1));
            if up_run(dc, choices, step, replies).next matches UpNextView::Done(Ok(_)) {
                let n = choose|n: int|
                    0 <= n < replies.skip(1).len() && n < rest.len() && came_up(
                        #[trigger] rest[n],
                        replies.skip(1)[n],
                    );
                assert(trace[n + 1] == rest[n]);
                assert(came_up(trace[n + 1], replies[n + 1]));
            }
        }
    }
}

/// `--rebuild` always recreates: a run over a running container that ends well
/// has brought the stack up anew.
pub proof fn law_force_recreates(
    dc: DevcontainerView,
    container: ContainerView,
    choices: Choices,
    replies: Seq<ReplyView>,
)
    requires
        choices.rebuild == Rebuild::Force,
        up_run(dc, choices, up_start(dc, Some(container), choices), replies).next
            matches UpNextView::Done(Ok(_)),
    ensures
        exists|n: int|
            0 <= n < replies.len() && n < up_trace(
                dc,
                choices,
                up_start(dc, Some(container), choices),
                replies,
            ).len() && came_up(
                #[trigger] up_trace(
                    dc,
                    choices,
                    up_start(dc, Some(container), choices),
                    replies,
                )[n],
                replies[n],
            ),
{
    lemma_before_up(dc, choices, up_start(dc, Some(container), choices), replies);
}

/// A removal of the old container or stack that went well.
pub open spec fn cleared(at: UpStateView, reply: ReplyView) -> bool {
    at matches UpStateView::Clearing { args } && captured(args, reply->Ran_0) is Ok
}

/// A rebuild in place is the only one that removes nothing first: where the
/// running stack or the declared one is no compose stack, nothing new is
/// brought up before the old container or stack is gone.
#[verifier::rlimit(40)]
pub proof fn law_old_stack_goes_first(
    dc: DevcontainerView,
    choices: Choices,
    say: Seq<Seq<char>>,
    container: ContainerView,
    compose: bool,
    replies: Seq<ReplyView>,
    n: int,
)
    requires
        !compose || !compose_based(dc),
        ({
            let trace = up_trace(dc, choices, to_rebuild(dc, say, container, compose), replies);
            0 <= n < trace.len() && trace[n] is BringingUp
        }),
    ensures
        exists|k: int|
            0 <= k < n && k < replies.len() && cleared(
                #[trigger] up_trace(
                    dc,
                    choices,
                    to_rebuild(dc, say, container, compose),
                    replies,
                )[k],
                replies[k],
            ),
{
    let step = to_rebuild(dc, say, container, compose);
    let trace = up_trace(dc, choices, step, replies);
    let at = step.next->Wait_0;
    let next = up_next(dc, choices, at, replies[0]);
    let rest = up_trace(dc, choices, next, replies.skip(1));
    assert(trace[0] == at);
    assert(trace == seq![at] + rest);
    if at is Clearing {
        if !cleared(at, replies[0]) {
            assert(rest.len() == 0);
        }
        assert(cleared(trace[0], replies[0]));
    } else {
        let second = next.next->Wait_0;
        assert(second is Clearing);
        assert(trace[1] == rest[0]);
        assert(rest[0] == second);
        assert(n > 1);
        let after = up_next(dc, choices, second, replies[1]);
        assert(replies.skip(1)[0] == replies[1]);
        if !cleared(second, replies[1]) {
            assert(after.next is Done);
            assert(rest == seq![second] + up_trace(
                dc,
                choices,
                after,
                replies.skip(1).skip(1),
            ));
            assert(rest.len() == 1);
        }
        assert(cleared(trace[1], replies[1]));
    }
}

/// The stack files that were modified after a container was made, as the user
/// is shown them.
pub open spec fn drifted(
    dc: DevcontainerView,
    created: i64,
    modified: spec_fn(Seq<char>) -> Option<i64>,
    upto: int,
) -> Seq<Seq<char>>
    decreases upto,
{
    if upto <= 0 {
        seq![]
    } else {
        let file = stack_of(dc)[upto - 1];
        let rest = drifted(dc, created, modified, upto - 1);
        if newer(modified(file), created) {
            rest.push(shown(file, dc.project_root))
        } else {
            rest
        }
    }
}

proof fn lemma_drift(
    dc: DevcontainerView,
    choices: Choices,
    container: ContainerView,
    compose: bool,
    created: i64,
    modified: spec_fn(Seq<char>) -> Option<i64>,
    file: int,
    replies: Seq<ReplyView>,
)
    requires
        0 <= file <= stack_of(dc).len(),
        replies.len() == stack_of(dc).len() - file,
        forall|i: int|
            0 <= i < replies.len() ==> #[trigger] replies[i] == ReplyView::Seconds(
                modified(stack_of(dc)[file + i]),
            ),
    ensures
        up_run(
            dc,
            choices,
            to_file(
                dc,
                choices,
                container,
                compose,
                created,
                file,
                drifted(dc, created, modified, file),
            ),
            replies,
        ) == to_decision(
            dc,
            choices,
            container,
            compose,
            drifted(dc, created, modified, stack_of(dc).len() as int),
        ),
    decreases replies.len(),
{
    if file < stack_of(dc).len() {
        assert(replies[0] == ReplyView::Seconds(modified(stack_of(dc)[file])));
        assert forall|i: int| 0 <= i < replies.skip(1).len() implies #[trigger] replies.skip(1)[i]
            == ReplyView::Seconds(modified(stack_of(dc)[file + 1 + i])) by {
            assert(replies.skip(1)[i] == replies[i + 1]);
        }
        lemma_drift(
            dc,
            choices,
            container,
            compose,
            created,
            modified,
            file + 1,
            replies.skip(1),
        );
    }
}

/// Drift is what the file times say: the decision is made on exactly those
/// stack files that are newer than the container, in order.
pub proof fn law_drift_is_newer_files(
    dc: DevcontainerView,
    choices: Choices,
    container: ContainerView,
    compose: bool,
    created: i64,
    modified: spec_fn(Seq<char>) -> Option<i64>,
)
    ensures
        up_run(
            dc,
            choices,
            to_file(dc, choices, container, compose, created, 0, seq![]),
            stack_of(dc).map_values(|f: Seq<char>| ReplyView::Seconds(modified(f))),
        ) == to_decision(
            dc,
            choices,
            container,
            compose,
            drifted(dc, created, modified, stack_of(dc).len() as int),
        ),
{
    lemma_drift(
        dc,
        choices,
        container,
        compose,
        created,
        modified,
        0,
        stack_of(dc).map_values(|f: Seq<char>| ReplyView::Seconds(modified(f))),
    );
}

/// With no stack file newer than the container, and the container of the
/// declared kind, it is connected to as it is.
pub proof fn law_no_drift_no_rebuild(
    dc: DevcontainerView,
    choices: Choices,
    container: ContainerView,
    created: i64,
    modified: spec_fn(Seq<char>) -> Option<i64>,
)
    requires
        forall|i: int|
            0 <= i < stack_of(dc).len() ==> !newer(modified(#[trigger] stack_of(dc)[i]), created),
    ensures
        to_decision(
            dc,
            choices,
            container,
            compose_based(dc),
            drifted(dc, created, modified, stack_of(dc).len() as int),
        ) == to_hooks(dc, seq![], container, false),
{
    lemma_nothing_drifted(dc, created, modified, stack_of(dc).len() as int);
}

proof fn lemma_nothing_drifted(
    dc: DevcontainerView,
    created: i64,
    modified: spec_fn(Seq<char>) -> Option<i64>,
    upto: int,
)
    requires
        0 <= upto <= stack_of(dc).len(),
        forall|i: int|
            0 <= i < stack_of(dc).len() ==> !newer(modified(#[trigger] stack_of(dc)[i]), created),
    ensures
        drifted(dc, created, modified, upto).len() == 0,
    decreases upto,
{
    if upto > 0 {
        lemma_nothing_drifted(dc, created, modified, upto - 1);
    }
}

// ---------------------------------------------------------------------------
// Hooks
// ---------------------------------------------------------------------------

/// The container of a state in which the hooks are dealt with.
pub open spec fn hooked(at: UpStateView) -> Option<ContainerView> {
    match at {
        UpStateView::CheckingMarker { container, .. } => Some(container),
        UpStateView::CheckingUser { container, .. } => Some(container),
        UpStateView::RunningCommand { container, .. } => Some(container),
        UpStateView::Stamping { container, .. } => Some(container),
        UpStateView::CheckingStart { container } => Some(container),
        UpStateView::CheckingSentinel { container, .. } => Some(container),
        _ => None,
    }
}

/// A step that is on the way to a container, or there.
pub open spec fn heads_for(step: UpStepView, container: ContainerView) -> bool {
    match step.next {
        UpNextView::Wait(at) => hooked(at) == Some(container),
        UpNextView::Done(r) => r == Ok::<Option<ContainerView>, super::ErrorView>(Some(container)),
    }
}

/// A hook cannot lock anyone out: once there is a container, every run ends at
/// that container, however the hooks and the work around them go.
#[verifier::rlimit(40)]
pub proof fn law_hooks_are_not_fatal(
    dc: DevcontainerView,
    choices: Choices,
    step: UpStepView,
    container: ContainerView,
    replies: Seq<ReplyView>,
)
    requires
        heads_for(step, container),
    ensures
        heads_for(up_run(dc, choices, step, replies), container),
    decreases replies.len(),
{
    if step.next is Wait && replies.len() > 0 {
        let next = up_next(dc, choices, step.next->Wait_0, replies[0]);
        law_hooks_are_not_fatal(dc, choices, next, container, replies.skip(1));
    }
}

/// Connecting to a container heads for that container.
pub proof fn law_found_container_is_kept(
    dc: DevcontainerView,
    say: Seq<Seq<char>>,
    container: ContainerView,
    just_made: bool,
)
    ensures
        heads_for(to_hooks(dc, say, container, just_made), container),
{
}

/// With `--no-rebuild`, what runs is connected to as it is.
pub proof fn law_never_connects_as_is(
    dc: DevcontainerView,
    container: ContainerView,
    choices: Choices,
    replies: Seq<ReplyView>,
)
    requires
        choices.rebuild == Rebuild::Never,
    ensures
        heads_for(
            up_run(dc, choices, up_start(dc, Some(container), choices), replies),
            container,
        ),
{
    law_hooks_are_not_fatal(
        dc,
        choices,
        up_start(dc, Some(container), choices),
        container,
        replies,
    );
}

/// A command of postCreate.
pub open spec fn runs_post_create(at: UpStateView) -> bool {
    at matches UpStateView::RunningCommand { hook: HookView::Create, .. }
}

/// The record that postCreate ran.
pub open spec fn records_post_create(at: UpStateView) -> bool {
    at matches UpStateView::Stamping { hook: HookView::Create, .. }
}

spec fn past_create(step: UpStepView) -> bool {
    match step.next {
        UpNextView::Wait(at) => match at {
            UpStateView::CheckingUser { hook, .. } => hook is Start,
            UpStateView::RunningCommand { hook, .. } => hook is Start,
            UpStateView::Stamping { hook, .. } => hook is Start,
            UpStateView::CheckingStart { .. } => true,
            UpStateView::CheckingSentinel { .. } => true,
            _ => false,
        },
        UpNextView::Done(_) => true,
    }
}

#[verifier::rlimit(40)]
proof fn lemma_past_create(
    dc: DevcontainerView,
    choices: Choices,
    step: UpStepView,
    replies: Seq<ReplyView>,
    n: int,
)
    requires
        past_create(step),
        0 <= n < up_trace(dc, choices, step, replies).len(),
    ensures
        !runs_post_create(up_trace(dc, choices, step, replies)[n]),
        !records_post_create(up_trace(dc, choices, step, replies)[n]),
    decreases replies.len(),
{
    let at = step.next->Wait_0;
    let trace = up_trace(dc, choices, step, replies);
    assert(trace[0] == at);
    if n > 0 {
        let next = up_next(dc, choices, at, replies[0]);
        let rest = up_trace(dc, choices, next, replies.skip(1));
        assert(trace == seq![at] + rest);
        assert(trace[n] == rest[n - 1]);
        lemma_past_create(dc, choices, next, replies.skip(1), n - 1);
    }
}

/// postCreate runs once: where a signal says that it has run, none of its
/// commands is run in the rest of the walk.
pub proof fn law_marked_skips_post_create(
    dc: DevcontainerView,
    choices: Choices,
    container: ContainerView,
    at: MarkerState,
    reply: ReplyView,
    replies: Seq<ReplyView>,
    n: int,
)
    requires
        marker_next(container.id, at, reply) == MarkerStepView::Done(true),
        ({
            let step = up_next(
                dc,
                choices,
                UpStateView::CheckingMarker { container, at },
                reply,
            );
            0 <= n < up_trace(dc, choices, step, replies).len()
        }),
    ensures
        !runs_post_create(
            up_trace(
                dc,
                choices,
                up_next(dc, choices, UpStateView::CheckingMarker { container, at }, reply),
                replies,
            )[n],
        ),
{
    let step = up_next(dc, choices, UpStateView::CheckingMarker { container, at }, reply);
    lemma_past_create(dc, choices, step, replies, n);
}

/// A postCreate command that fails ends the hook: no other of its commands is
/// run, and that it ran is not recorded.
pub proof fn law_failed_post_create_is_not_recorded(
    dc: DevcontainerView,
    choices: Choices,
    at: UpStateView,
    reply: ReplyView,
    replies: Seq<ReplyView>,
    n: int,
)
    requires
        runs_post_create(at),
        status_of(reply->Ran_0) != Ok::<bool, ErrorView>(true),
        0 <= n < up_trace(dc, choices, up_next(dc, choices, at, reply), replies).len(),
    ensures
        !runs_post_create(up_trace(dc, choices, up_next(dc, choices, at, reply), replies)[n]),
        !records_post_create(up_trace(dc, choices, up_next(dc, choices, at, reply), replies)[n]),
{
    lemma_past_create(dc, choices, up_next(dc, choices, at, reply), replies, n);
}

/// A command that goes well is followed by the next.
proof fn lemma_command_went_well(
    dc: DevcontainerView,
    choices: Choices,
    container: ContainerView,
    hook: HookView,
    user: Option<Seq<char>>,
    index: int,
    reply: ReplyView,
)
    requires
        status_of(reply->Ran_0) == Ok::<bool, ErrorView>(true),
    ensures
        up_next(
            dc,
            choices,
            UpStateView::RunningCommand { container, hook, user, index },
            reply,
        ) == to_command(dc, seq![], container, hook, user, index + 1),
{
}

/// A trace goes on with the trace of the next step.
proof fn lemma_trace_next(
    dc: DevcontainerView,
    choices: Choices,
    step: UpStepView,
    at: UpStateView,
    next: UpStepView,
    replies: Seq<ReplyView>,
)
    requires
        replies.len() > 0,
        step.next matches UpNextView::Wait(a) && a == at,
        next == up_next(dc, choices, at, replies[0]),
    ensures
        up_trace(dc, choices, step, replies) == seq![at] + up_trace(
            dc,
            choices,
            next,
            replies.skip(1),
        ),
{
}

/// A hook whose commands all go well runs each of them, in order, and then
/// records that it ran.
#[verifier::rlimit(40)]
pub proof fn law_hook_runs_in_order(
    dc: DevcontainerView,
    choices: Choices,
    say: Seq<Seq<char>>,
    container: ContainerView,
    hook: HookView,
    user: Option<Seq<char>>,
    index: int,
    replies: Seq<ReplyView>,
    n: int,
)
    requires
        0 <= index <= hook_commands(dc, hook).len(),
        replies.len() == hook_commands(dc, hook).len() - index,
        forall|i: int|
            0 <= i < replies.len() ==> status_of((#[trigger] replies[i])->Ran_0) == Ok::<
                bool,
                ErrorView,
            >(true),
        0 <= n <= replies.len(),
    ensures
        up_trace(
            dc,
            choices,
            to_command(dc, say, container, hook, user, index),
            replies,
        ).len() == replies.len() + 1,
        up_trace(
            dc,
            choices,
            to_command(dc, say, container, hook, user, index),
            replies,
        )[n] == if n < replies.len() {
            UpStateView::RunningCommand { container, hook, user, index: index + n }
        } else {
            UpStateView::Stamping { container, hook }
        },
    decreases replies.len(),
{
    let step = to_command(dc, say, container, hook, user, index);
    if replies.len() > 0 {
        let at = UpStateView::RunningCommand { container, hook, user, index };
        let next = to_command(dc, seq![], container, hook, user, index + 1);
        let rest = replies.skip(1);
        lemma_command_went_well(dc, choices, container, hook, user, index, replies[0]);
        lemma_trace_next(dc, choices, step, at, next, replies);
        assert forall|i: int| 0 <= i < rest.len() implies status_of((#[trigger] rest[i])->Ran_0)
            == Ok::<bool, ErrorView>(true) by {
            assert(rest[i] == replies[i + 1]);
        }
        if n > 0 {
            law_hook_runs_in_order(
                dc,
                choices,
                seq![],
                container,
                hook,
                user,
                index + 1,
                rest,
                n - 1,
            );
        } else {
            law_hook_runs_in_order(dc, choices, seq![], container, hook, user, index + 1, rest, 0);
        }
    }
}

/// The label of a container that this run made itself does not keep its
/// postCreate from running: without the sentinel, the hook is run.
#[verifier::rlimit(40)]
pub proof fn law_new_container_runs_post_create(
    dc: DevcontainerView,
    choices: Choices,
    container: ContainerView,
    reply: ReplyView,
)
    requires
        dc.post_create.len() > 0,
        status_of(reply->Ran_0) != Ok::<bool, ErrorView>(true),
    ensures
        ({
            let found = FindStepView::Done(Ok(Some(container)));
            let step = to_container(dc, BringUp::Image, found);
            up_run(dc, choices, step, seq![reply]) == to_hook(
                dc,
                seq![],
                container,
                HookView::Create,
            )
        }),
{
    let found = FindStepView::Done(Ok(Some(container)));
    let step = to_container(dc, BringUp::Image, found);
    let at = UpStateView::CheckingMarker { container, at: MarkerState::Sentinel };
    assert(step.next->Wait_0 == at);
    let next = up_next(dc, choices, at, reply);
    assert(next == to_hook(dc, seq![], container, HookView::Create));
    assert(seq![reply].skip(1) == Seq::<ReplyView>::empty());
    assert(up_run(dc, choices, next, Seq::empty()) == next);
    assert(up_run(dc, choices, step, seq![reply]) == up_run(
        dc,
        choices,
        next,
        seq![reply].skip(1),
    ));
}

/// Where neither signal says that postCreate has run, it is run: so it is on a
/// container that a rebuild made anew.
#[verifier::rlimit(40)]
pub proof fn law_unmarked_runs_post_create(
    dc: DevcontainerView,
    choices: Choices,
    container: ContainerView,
    label: ReplyView,
    sentinel: ReplyView,
)
    requires
        dc.post_create.len() > 0,
        !(marker_next(container.id, MarkerState::Label, label) is Done),
        status_of(sentinel->Ran_0) != Ok::<bool, ErrorView>(true),
    ensures
        up_run(dc, choices, to_hooks(dc, seq![], container, false), seq![label, sentinel])
            == to_hook(dc, seq![], container, HookView::Create),
{
    let step = to_hooks(dc, seq![], container, false);
    let first = UpStateView::CheckingMarker { container, at: MarkerState::Label };
    let second = UpStateView::CheckingMarker { container, at: MarkerState::Sentinel };
    let replies = seq![label, sentinel];
    let hook = to_hook(dc, seq![], container, HookView::Create);
    lemma_one_answer(dc, choices, step, first, replies);
    assert(up_next(dc, choices, first, label) == wait(seq![], second));
    assert(replies.skip(1)[0] == sentinel);
    lemma_one_answer(dc, choices, wait(seq![], second), second, replies.skip(1));
    assert(up_next(dc, choices, second, sentinel) == hook);
    assert(replies.skip(1).skip(1) == Seq::<ReplyView>::empty());
}

/// A run goes on with the next step.
proof fn lemma_one_answer(
    dc: DevcontainerView,
    choices: Choices,
    step: UpStepView,
    at: UpStateView,
    replies: Seq<ReplyView>,
)
    requires
        replies.len() > 0,
        step.next == UpNextView::Wait(at),
    ensures
        up_run(dc, choices, step, replies) == up_run(
            dc,
            choices,
            up_next(dc, choices, at, replies[0]),
            replies.skip(1),
        ),
{
}

/// postStart runs once per start: where its sentinel is there, the walk is
/// over.
pub proof fn law_started_skips_post_start(
    dc: DevcontainerView,
    choices: Choices,
    container: ContainerView,
    sentinel: Seq<char>,
    reply: ReplyView,
)
    requires
        status_of(reply->Ran_0) == Ok::<bool, ErrorView>(true),
    ensures
        up_next(dc, choices, UpStateView::CheckingSentinel { container, sentinel }, reply) == over(
            seq![],
            Ok(Some(container)),
        ),
{
}

/// A command that is run as a named user.
pub open spec fn runs_as(at: UpStateView) -> Option<Seq<char>> {
    match at {
        UpStateView::RunningCommand { user, .. } => user,
        _ => None,
    }
}

/// The look-up of the declared user went well.
pub open spec fn user_verified(at: UpStateView, reply: ReplyView) -> bool {
    at is CheckingUser && user_found(reply->Ran_0)
}

spec fn declared_only(dc: DevcontainerView, step: UpStepView) -> bool {
    step.next matches UpNextView::Wait(at) ==> (runs_as(at) is Some ==> runs_as(at)
        == dc.remote_user)
}

#[verifier::rlimit(40)]
proof fn lemma_declared_next(
    dc: DevcontainerView,
    choices: Choices,
    at: UpStateView,
    reply: ReplyView,
)
    requires
        runs_as(at) is Some ==> runs_as(at) == dc.remote_user,
        at is CheckingUser ==> dc.remote_user is Some,
    ensures
        declared_only(dc, up_next(dc, choices, at, reply)),
        runs_as(at) is None && !user_verified(at, reply) ==> (up_next(
            dc,
            choices,
            at,
            reply,
        ).next matches UpNextView::Wait(next) ==> runs_as(next) is None),
{
    if let UpStateView::Locating { how, at } = at {
        lemma_container_runs_nothing(dc, how, find_next(dc, at, reply));
    }
}

proof fn lemma_container_runs_nothing(dc: DevcontainerView, how: BringUp, step: FindStepView)
    ensures
        to_container(dc, how, step).next matches UpNextView::Wait(next) ==> runs_as(next) is None,
{
}

#[verifier::rlimit(40)]
proof fn lemma_user_is_verified(
    dc: DevcontainerView,
    choices: Choices,
    step: UpStepView,
    replies: Seq<ReplyView>,
    n: int,
)
    requires
        step.next matches UpNextView::Wait(at) ==> up_state_fits(dc, at),
        declared_only(dc, step),
        0 <= n < up_trace(dc, choices, step, replies).len(),
        runs_as(up_trace(dc, choices, step, replies)[n]) is Some,
    ensures
        runs_as(up_trace(dc, choices, step, replies)[n]) == dc.remote_user,
        (step.next matches UpNextView::Wait(at) && runs_as(at) is None) ==> exists|k: int|
            0 <= k < n && k < replies.len() && user_verified(
                #[trigger] up_trace(dc, choices, step, replies)[k],
                replies[k],
            ),
    decreases replies.len(),
{
    let at = step.next->Wait_0;
    let trace = up_trace(dc, choices, step, replies);
    assert(trace[0] == at);
    if n > 0 {
        let next = up_next(dc, choices, at, replies[0]);
        lemma_trace_next(dc, choices, step, at, next, replies);
        lemma_declared_next(dc, choices, at, replies[0]);
        lemma_next_nearer(dc, choices, at, replies[0]);
        let rest = up_trace(dc, choices, next, replies.skip(1));
        assert(trace[n] == rest[n - 1]);
        lemma_user_is_verified(dc, choices, next, replies.skip(1), n - 1);
        if runs_as(at) is None {
            if user_verified(at, replies[0]) {
                assert(user_verified(trace[0], replies[0]));
            } else {
                let k = choose|k: int|
                    0 <= k < n - 1 && k < replies.skip(1).len() && user_verified(
                        #[trigger] rest[k],
                        replies.skip(1)[k],
                    );
                assert(trace[k + 1] == rest[k]);
                assert(user_verified(trace[k + 1], replies[k + 1]));
            }
        }
    }
}

/// A hook runs as a named user only if that is the declared `remoteUser` and
/// was found in the container before.
pub proof fn law_user_is_verified(
    dc: DevcontainerView,
    existing: Option<ContainerView>,
    choices: Choices,
    replies: Seq<ReplyView>,
    n: int,
)
    requires
        0 <= n < up_trace(dc, choices, up_start(dc, existing, choices), replies).len(),
        runs_as(up_trace(dc, choices, up_start(dc, existing, choices), replies)[n]) is Some,
    ensures
        runs_as(up_trace(dc, choices, up_start(dc, existing, choices), replies)[n])
            == dc.remote_user,
        exists|k: int|
            0 <= k < n && k < replies.len() && user_verified(
                #[trigger] up_trace(dc, choices, up_start(dc, existing, choices), replies)[k],
                replies[k],
            ),
{
    lemma_user_is_verified(dc, choices, up_start(dc, existing, choices), replies, n);
}

// ---------------------------------------------------------------------------
// The end
// ---------------------------------------------------------------------------

/// How far the walk is from its end: the phase, and what is left of it.
pub open spec fn up_rank(dc: DevcontainerView, at: UpStateView) -> (int, int, int) {
    match at {
        UpStateView::AskingStart => (20, 0, 0),
        UpStateView::CheckingKind { .. } => (19, 0, 0),
        UpStateView::CheckingCreated { .. } => (18, 0, 0),
        UpStateView::CheckingFile { file, .. } => (17, stack_of(dc).len() - file, 0),
        UpStateView::AskingRebuild { .. } => (16, 0, 0),
        UpStateView::FetchingProject { .. } => (15, 0, 0),
        UpStateView::Clearing { .. } => (14, 0, 0),
        UpStateView::BringingUp { .. } => (13, 0, 0),
        UpStateView::Locating { at, .. } => (12, find_rank(dc, at).0, find_rank(dc, at).1),
        UpStateView::Diagnosing => (11, 0, 0),
        UpStateView::CheckingMarker { at: MarkerState::Label, .. } => (10, 1, 0),
        UpStateView::CheckingMarker { at: MarkerState::Sentinel, .. } => (10, 0, 0),
        UpStateView::CheckingStart { .. } => (6, 0, 0),
        UpStateView::CheckingSentinel { .. } => (5, 0, 0),
        UpStateView::CheckingUser { hook: HookView::Create, .. } => (9, 0, 0),
        UpStateView::RunningCommand { hook: HookView::Create, index, .. } => (
            8,
            dc.post_create.len() - index,
            0,
        ),
        UpStateView::Stamping { hook: HookView::Create, .. } => (7, 0, 0),
        UpStateView::CheckingUser { hook: HookView::Start(_), .. } => (4, 0, 0),
        UpStateView::RunningCommand { hook: HookView::Start(_), index, .. } => (
            3,
            dc.post_start.len() - index,
            0,
        ),
        UpStateView::Stamping { hook: HookView::Start(_), .. } => (2, 0, 0),
    }
}

/// One rank below another, the first difference deciding.
pub open spec fn below(a: (int, int, int), b: (int, int, int)) -> bool {
    a.0 < b.0 || (a.0 == b.0 && (a.1 < b.1 || (a.1 == b.1 && a.2 < b.2)))
}

spec fn nearer(dc: DevcontainerView, step: UpStepView, at: UpStateView) -> bool {
    match step.next {
        UpNextView::Wait(next) => {
            &&& up_state_fits(dc, next)
            &&& below(up_rank(dc, next), up_rank(dc, at))
            &&& up_rank(dc, next).0 >= 0
            &&& up_rank(dc, next).1 >= 0
            &&& up_rank(dc, next).2 >= 0
        },
        UpNextView::Done(_) => true,
    }
}

proof fn lemma_container_nearer(
    dc: DevcontainerView,
    how: BringUp,
    at: FindStateView,
    step: FindStepView,
)
    requires
        step matches FindStepView::Wait(_, next) ==> {
            &&& find_state_fits(dc, next)
            &&& find_rank(dc, next).0 >= 0 && find_rank(dc, next).1 >= 0
            &&& find_rank(dc, next).0 < find_rank(dc, at).0 || (find_rank(dc, next).0 == find_rank(
                dc,
                at,
            ).0 && find_rank(dc, next).1 < find_rank(dc, at).1)
        },
    ensures
        nearer(dc, to_container(dc, how, step), UpStateView::Locating { how, at }),
{
}

/// The way to the hooks, and through them, is the last part of the walk.
#[verifier::rlimit(40)]
proof fn lemma_hooks_nearer(
    dc: DevcontainerView,
    choices: Choices,
    at: UpStateView,
    reply: ReplyView,
)
    requires
        up_state_fits(dc, at),
        hooked(at) is Some,
    ensures
        nearer(dc, up_next(dc, choices, at, reply), at),
{
}

/// Finding out what changed comes to the decision.
#[verifier::rlimit(40)]
proof fn lemma_checks_nearer(
    dc: DevcontainerView,
    choices: Choices,
    at: UpStateView,
    reply: ReplyView,
)
    requires
        up_state_fits(dc, at),
        at is CheckingKind || at is CheckingCreated || at is CheckingFile,
    ensures
        nearer(dc, up_next(dc, choices, at, reply), at),
{
}

/// An answer of the user, and the work on the stack, come to the search.
#[verifier::rlimit(40)]
proof fn lemma_stack_nearer(
    dc: DevcontainerView,
    choices: Choices,
    at: UpStateView,
    reply: ReplyView,
)
    requires
        up_state_fits(dc, at),
        at is AskingStart || at is AskingRebuild || at is FetchingProject || at is Clearing || at
            is BringingUp || at is Diagnosing,
    ensures
        nearer(dc, up_next(dc, choices, at, reply), at),
{
}

#[verifier::rlimit(40)]
proof fn lemma_next_nearer(
    dc: DevcontainerView,
    choices: Choices,
    at: UpStateView,
    reply: ReplyView,
)
    requires
        up_state_fits(dc, at),
    ensures
        nearer(dc, up_next(dc, choices, at, reply), at),
{
    if let UpStateView::Locating { how, at } = at {
        law_find_goes_on(dc, at, reply);
        lemma_container_nearer(dc, how, at, find_next(dc, at, reply));
    } else if hooked(at) is Some {
        lemma_hooks_nearer(dc, choices, at, reply);
    } else if at is CheckingKind || at is CheckingCreated || at is CheckingFile {
        lemma_checks_nearer(dc, choices, at, reply);
    } else {
        lemma_stack_nearer(dc, choices, at, reply);
    }
}

/// The first of the answers of an endless stream, from one on.
pub open spec fn answers_from(stream: spec_fn(nat) -> ReplyView, from: nat, n: nat) -> Seq<
    ReplyView,
> {
    Seq::new(n, |i: int| stream(from + i as nat))
}

#[verifier::rlimit(40)]
proof fn lemma_up_ends(
    dc: DevcontainerView,
    choices: Choices,
    step: UpStepView,
    stream: spec_fn(nat) -> ReplyView,
    from: nat,
    rank: (int, int, int),
)
    requires
        step.next matches UpNextView::Wait(at) ==> up_state_fits(dc, at) && up_rank(dc, at) == rank,
        rank.0 >= 0 && rank.1 >= 0 && rank.2 >= 0,
    ensures
        exists|n: nat|
            (#[trigger] up_run(dc, choices, step, answers_from(stream, from, n))).next is Done,
    decreases rank.0, rank.1, rank.2,
{
    match step.next {
        UpNextView::Done(_) => {
            assert(up_run(dc, choices, step, answers_from(stream, from, 0)).next is Done);
        },
        UpNextView::Wait(at) => {
            let next = up_next(dc, choices, at, stream(from));
            lemma_next_nearer(dc, choices, at, stream(from));
            let next_rank = match next.next {
                UpNextView::Wait(later) => up_rank(dc, later),
                UpNextView::Done(_) => (0int, 0int, 0int),
            };
            if next.next is Wait {
                lemma_up_ends(dc, choices, next, stream, from + 1, next_rank);
            } else {
                assert(up_run(dc, choices, next, answers_from(stream, from + 1, 0)).next is Done);
            }
            let n = choose|n: nat|
                (#[trigger] up_run(dc, choices, next, answers_from(stream, from + 1, n))).next is Done;
            let all = answers_from(stream, from, n + 1);
            assert(all[0] == stream(from));
            assert(all.skip(1) == answers_from(stream, from + 1, n));
            assert(up_run(dc, choices, step, all).next is Done);
        },
    }
}

/// Whatever the answers are, the walk comes to an end.
pub proof fn law_up_ends(
    dc: DevcontainerView,
    existing: Option<ContainerView>,
    choices: Choices,
    stream: spec_fn(nat) -> ReplyView,
)
    ensures
        exists|n: nat|
            (#[trigger] up_run(
                dc,
                choices,
                up_start(dc, existing, choices),
                answers_from(stream, 0, n),
            )).next is Done,
{
    let step = up_start(dc, existing, choices);
    let rank = match step.next {
        UpNextView::Wait(at) => up_rank(dc, at),
        UpNextView::Done(_) => (0int, 0int, 0int),
    };
    lemma_up_ends(dc, choices, step, stream, 0, rank);
}

// ---------------------------------------------------------------------------
// Who the hooks run as, what they run, and what is recorded
// ---------------------------------------------------------------------------

/// A look-up, or any other work, that docker ended well.
pub open spec fn went_well(reply: ReplyView) -> bool {
    reply->Ran_0 matches OutcomeView::Exited { success: true, .. }
}

/// Each state of a trace comes of the one before it, with its answer.
#[verifier::rlimit(40)]
proof fn lemma_trace_step(
    dc: DevcontainerView,
    choices: Choices,
    step: UpStepView,
    replies: Seq<ReplyView>,
    n: int,
)
    requires
        0 < n < up_trace(dc, choices, step, replies).len(),
    ensures
        n - 1 < replies.len(),
        up_next(
            dc,
            choices,
            up_trace(dc, choices, step, replies)[n - 1],
            replies[n - 1],
        ).next == UpNextView::Wait(up_trace(dc, choices, step, replies)[n]),
    decreases replies.len(),
{
    let at = step.next->Wait_0;
    let trace = up_trace(dc, choices, step, replies);
    assert(trace[0] == at);
    let next = up_next(dc, choices, at, replies[0]);
    lemma_trace_next(dc, choices, step, at, next, replies);
    let rest = up_trace(dc, choices, next, replies.skip(1));
    assert(trace[n] == rest[n - 1]);
    if n > 1 {
        lemma_trace_step(dc, choices, next, replies.skip(1), n - 1);
        assert(trace[n - 1] == rest[n - 2]);
        assert(replies.skip(1)[n - 2] == replies[n - 1]);
    } else {
        assert(rest[0] == next.next->Wait_0);
    }
}

/// What comes before a command: the look-up of the user, or the command
/// before it; or nothing, where no user is declared.
#[verifier::rlimit(40)]
proof fn lemma_before_command(
    dc: DevcontainerView,
    choices: Choices,
    at: UpStateView,
    reply: ReplyView,
)
    requires
        !(at is CheckingUser || at is RunningCommand),
    ensures
        up_next(dc, choices, at, reply).next matches UpNextView::Wait(
            UpStateView::RunningCommand { container, hook, user, index },
        ) ==> dc.remote_user is None && user is None,
{
    if let UpStateView::Locating { how, at } = at {
        lemma_no_command(dc, how, find_next(dc, at, reply));
    }
}

proof fn lemma_no_command(dc: DevcontainerView, how: BringUp, step: FindStepView)
    ensures
        !(to_container(dc, how, step).next matches UpNextView::Wait(
            UpStateView::RunningCommand { .. },
        )),
{
}

proof fn lemma_user_step(
    dc: DevcontainerView,
    choices: Choices,
    at: UpStateView,
    reply: ReplyView,
)
    requires
        at is CheckingUser,
    ensures
        up_next(dc, choices, at, reply).next matches UpNextView::Wait(
            UpStateView::RunningCommand { container, hook, user, index },
        ) ==> {
            &&& at == (UpStateView::CheckingUser { container, hook })
            &&& went_well(reply) ==> user == Some(dc.remote_user->Some_0)
            &&& !went_well(reply) ==> user is None
            &&& index == 0
        },
{
}

proof fn lemma_command_user(
    dc: DevcontainerView,
    choices: Choices,
    step: UpStepView,
    replies: Seq<ReplyView>,
    container: ContainerView,
    hook: HookView,
    user: Option<Seq<char>>,
    index: int,
    n: int,
)
    requires
        step.next matches UpNextView::Wait(at) ==> up_state_fits(dc, at) && !(at is RunningCommand),
        0 <= n < up_trace(dc, choices, step, replies).len(),
        up_trace(dc, choices, step, replies)[n] == (UpStateView::RunningCommand {
            container,
            hook,
            user,
            index,
        }),
    ensures
        dc.remote_user is None ==> user is None,
        dc.remote_user is Some ==> exists|k: int|
            0 <= k < n && #[trigger] up_trace(dc, choices, step, replies)[k] == (
            UpStateView::CheckingUser { container, hook }) && user == if went_well(replies[k]) {
                dc.remote_user
            } else {
                None
            },
    decreases n,
{
    let trace = up_trace(dc, choices, step, replies);
    assert(trace[0] == step.next->Wait_0);
    lemma_trace_step(dc, choices, step, replies, n);
    let at = trace[n - 1];
    lemma_trace_fits(dc, choices, step, replies, n - 1);
    if at is CheckingUser {
        lemma_user_step(dc, choices, at, replies[n - 1]);
        assert(dc.remote_user is Some);
        assert(trace[n - 1] == (UpStateView::CheckingUser { container, hook }));
    } else if at is RunningCommand {
        lemma_command_step(dc, choices, at, replies[n - 1]);
        assert(at == (UpStateView::RunningCommand { container, hook, user, index: index - 1 }));
        lemma_command_user(
            dc,
            choices,
            step,
            replies,
            container,
            hook,
            user,
            index - 1,
            n - 1,
        );
    } else {
        lemma_before_command(dc, choices, at, replies[n - 1]);
    }
}

/// A command is followed by another only of the same hook, as the same user.
#[verifier::rlimit(40)]
proof fn lemma_command_step(
    dc: DevcontainerView,
    choices: Choices,
    at: UpStateView,
    reply: ReplyView,
)
    requires
        at is RunningCommand,
    ensures
        up_next(dc, choices, at, reply).next matches UpNextView::Wait(
            UpStateView::RunningCommand { container, hook, user, index },
        ) ==> at == (UpStateView::RunningCommand { container, hook, user, index: index - 1 }),
{
}

/// Every state of a trace fits.
proof fn lemma_trace_fits(
    dc: DevcontainerView,
    choices: Choices,
    step: UpStepView,
    replies: Seq<ReplyView>,
    n: int,
)
    requires
        step.next matches UpNextView::Wait(at) ==> up_state_fits(dc, at),
        0 <= n < up_trace(dc, choices, step, replies).len(),
    ensures
        up_state_fits(dc, up_trace(dc, choices, step, replies)[n]),
    decreases n,
{
    let trace = up_trace(dc, choices, step, replies);
    assert(trace[0] == step.next->Wait_0);
    if n > 0 {
        lemma_trace_fits(dc, choices, step, replies, n - 1);
        lemma_trace_step(dc, choices, step, replies, n);
        lemma_next_nearer(dc, choices, trace[n - 1], replies[n - 1]);
    }
}

/// Both hooks run as the declared user wherever that user is there: where one
/// is declared, every command follows the look-up of it for that hook, and is
/// run as that user if the look-up went well, and as nobody if it did not.
/// Where none is declared, it is run as nobody.
pub proof fn law_hook_runs_as_the_user(
    dc: DevcontainerView,
    existing: Option<ContainerView>,
    choices: Choices,
    replies: Seq<ReplyView>,
    container: ContainerView,
    hook: HookView,
    user: Option<Seq<char>>,
    index: int,
    n: int,
)
    requires
        0 <= n < up_trace(dc, choices, up_start(dc, existing, choices), replies).len(),
        up_trace(dc, choices, up_start(dc, existing, choices), replies)[n] == (
        UpStateView::RunningCommand { container, hook, user, index }),
    ensures
        dc.remote_user is None ==> user is None,
        dc.remote_user is Some ==> exists|k: int|
            0 <= k < n && #[trigger] up_trace(
                dc,
                choices,
                up_start(dc, existing, choices),
                replies,
            )[k] == (UpStateView::CheckingUser { container, hook }) && user == if went_well(
                replies[k],
            ) {
                dc.remote_user
            } else {
                None
            },
{
    lemma_command_user(
        dc,
        choices,
        up_start(dc, existing, choices),
        replies,
        container,
        hook,
        user,
        index,
        n,
    );
}

/// What a declared command is in the container: a string goes to the shell, an
/// array is run word by word.
pub open spec fn run_words(words: Seq<Seq<char>>, command: CommandView) -> bool {
    match command {
        CommandView::Shell(line) => words == seq!["sh"@, "-c"@, line],
        CommandView::Argv(argv) => words == argv,
    }
}

/// A command of a hook is run in its container, as the user that was settled
/// on and in the workspace folder; and it is the declared one, of
/// `postCreateCommand` or of `postStartCommand`.
pub proof fn law_hook_command_line(
    dc: DevcontainerView,
    container: ContainerView,
    hook: HookView,
    user: Option<Seq<char>>,
    index: int,
)
    requires
        hook is Create ==> 0 <= index < dc.post_create.len(),
        hook is Start ==> 0 <= index < dc.post_start.len(),
    ensures
        ({
            let u: int = if user is Some {
                2
            } else {
                0
            };
            &&& up_request(
                dc,
                UpStateView::RunningCommand { container, hook, user, index },
            ) matches RequestView::Run { args, dir: None }
            &&& args.len() >= 5 + u
            &&& args[0] == "exec"@ && args[1] == "-i"@
            &&& user matches Some(name) ==> args[2] == "-u"@ && args[3] == name
            &&& args[2 + u] == "-w"@ && args[3 + u] == workspace_of(dc)
            &&& args[4 + u] == container.id
            &&& hook is Create ==> run_words(args.skip(5 + u), dc.post_create[index])
            &&& hook is Start ==> run_words(args.skip(5 + u), dc.post_start[index])
        }),
        up_request(dc, UpStateView::CheckingUser { container, hook }) == RequestView::Capture(
            seq!["exec"@, container.id, "id"@, dc.remote_user->Some_0],
        ),
{
    let u: int = if user is Some {
        2
    } else {
        0
    };
    let command = hook_commands(dc, hook)[index];
    let words = command_argv(command);
    let args = exec_command_args(container.id, user, Some(workspace_of(dc)), words);
    law_exec_command_line(container.id, user, Some(workspace_of(dc)), words);
    assert(args.skip(5 + u) == words);
    law_container_is_named(container.id, dc.remote_user->Some_0);
}

/// What records that a hook ran is what is looked for to tell whether it did:
/// the file that is touched is the file that is tested for, in the same
/// container.
pub proof fn law_record_is_what_is_looked_for(
    dc: DevcontainerView,
    container: ContainerView,
    sentinel: Seq<char>,
)
    ensures
        up_request(
            dc,
            UpStateView::CheckingMarker { container, at: MarkerState::Sentinel },
        ) == (RequestView::Run {
            args: seq!["exec"@, container.id, "test"@, "-f"@, MARKER_SENTINEL@],
            dir: None,
        }),
        up_request(dc, UpStateView::Stamping { container, hook: HookView::Create }) == (
        RequestView::Run {
            args: seq![
                "exec"@,
                "-i"@,
                container.id,
                "sh"@,
                "-c"@,
                "touch "@ + MARKER_SENTINEL@ + " 2>/dev/null || true"@,
            ],
            dir: None,
        }),
        up_request(dc, UpStateView::CheckingSentinel { container, sentinel }) == (
        RequestView::Run {
            args: seq!["exec"@, container.id, "test"@, "-f"@, sentinel],
            dir: None,
        }),
        up_request(dc, UpStateView::Stamping { container, hook: HookView::Start(sentinel) }) == (
        RequestView::Run {
            args: seq![
                "exec"@,
                "-i"@,
                container.id,
                "sh"@,
                "-c"@,
                "touch "@ + sentinel + " 2>/dev/null || true"@,
            ],
            dir: None,
        }),
{
    let id = container.id;
    law_marker_has_two_signals(id, ReplyView::Text(None), ReplyView::Text(None));
    assert(exec_args(id, seq!["test"@, "-f"@, sentinel]) == seq![
        "exec"@,
        id,
        "test"@,
        "-f"@,
        sentinel,
    ]);
    assert(exec_command_args(id, None, None, stamp_argv(HookView::Create)) == seq![
        "exec"@,
        "-i"@,
        id,
        "sh"@,
        "-c"@,
        "touch "@ + MARKER_SENTINEL@ + " 2>/dev/null || true"@,
    ]);
    assert(exec_command_args(id, None, None, stamp_argv(HookView::Start(sentinel))) == seq![
        "exec"@,
        "-i"@,
        id,
        "sh"@,
        "-c"@,
        "touch "@ + sentinel + " 2>/dev/null || true"@,
    ]);
}

/// A step that begins a hook: its user is looked up if one is declared, or
/// else its first command is run.
pub open spec fn begins_hook(
    dc: DevcontainerView,
    step: UpStepView,
    container: ContainerView,
    hook: HookView,
) -> bool {
    if dc.remote_user is Some {
        step.next == UpNextView::Wait(UpStateView::CheckingUser { container, hook })
    } else {
        step.next == UpNextView::Wait(
            UpStateView::RunningCommand { container, hook, user: None, index: 0 },
        )
    }
}

/// A connection runs postCreate first, unless it has run, and then postStart,
/// unless it has run for this start: on a container that is there, with hooks
/// declared, none of the two is left out.
pub proof fn law_hooks_come_in_turn(
    dc: DevcontainerView,
    choices: Choices,
    say: Seq<Seq<char>>,
    container: ContainerView,
    reply: ReplyView,
    started: Seq<char>,
    sentinel: Seq<char>,
)
    ensures
        dc.post_create.len() > 0 ==> to_hooks(dc, say, container, false).next == UpNextView::Wait(
            UpStateView::CheckingMarker { container, at: MarkerState::Label },
        ),
        dc.post_create.len() > 0 && !went_well(reply) ==> begins_hook(
            dc,
            up_next(
                dc,
                choices,
                UpStateView::CheckingMarker { container, at: MarkerState::Sentinel },
                reply,
            ),
            container,
            HookView::Create,
        ),
        dc.post_start.len() > 0 ==> {
            let start = UpNextView::Wait(UpStateView::CheckingStart { container });
            &&& dc.post_create.len() == 0 ==> to_hooks(dc, say, container, false).next == start
            &&& went_well(reply) ==> up_next(
                dc,
                choices,
                UpStateView::CheckingMarker { container, at: MarkerState::Sentinel },
                reply,
            ).next == start
            &&& up_next(
                dc,
                choices,
                UpStateView::Stamping { container, hook: HookView::Create },
                reply,
            ).next == start
        },
        dc.post_start.len() == 0 ==> up_next(
            dc,
            choices,
            UpStateView::Stamping { container, hook: HookView::Create },
            reply,
        ).next == UpNextView::Done(Ok(Some(container))),
        dc.post_start.len() > 0 && !went_well(reply) ==> begins_hook(
            dc,
            up_next(
                dc,
                choices,
                UpStateView::CheckingSentinel { container, sentinel },
                reply,
            ),
            container,
            HookView::Start(sentinel),
        ),
        up_next(
            dc,
            choices,
            UpStateView::Stamping { container, hook: HookView::Start(sentinel) },
            reply,
        ).next == UpNextView::Done(Ok(Some(container))),
{
    law_marker_has_two_signals(container.id, reply, reply);
}

/// The sentinel of a start goes by the time that docker gives for it.
pub proof fn law_start_has_its_sentinel(
    dc: DevcontainerView,
    choices: Choices,
    container: ContainerView,
    stdout: Seq<u8>,
    stderr: Seq<u8>,
)
    requires
        trimmed(utf8_lossy(stdout)).len() > 0,
    ensures
        up_request(dc, UpStateView::CheckingStart { container }) == RequestView::Capture(
            seq!["inspect"@, "-f"@, "{{.State.StartedAt}}"@, container.id],
        ),
        up_next(
            dc,
            choices,
            UpStateView::CheckingStart { container },
            ReplyView::Ran(OutcomeView::Exited { success: true, stdout, stderr }),
        ).next == UpNextView::Wait(
            UpStateView::CheckingSentinel {
                container,
                sentinel: start_sentinel(Some(trimmed(utf8_lossy(stdout)))),
            },
        ),
{
}

/// A hook starts at its first command, whoever it runs as.
pub proof fn law_hook_starts_at_the_first_command(
    dc: DevcontainerView,
    choices: Choices,
    container: ContainerView,
    hook: HookView,
    reply: ReplyView,
)
    requires
        dc.remote_user is Some,
        hook is Create ==> dc.post_create.len() > 0,
        hook is Start ==> dc.post_start.len() > 0,
    ensures
        up_next(dc, choices, UpStateView::CheckingUser { container, hook }, reply).next
            == UpNextView::Wait(
            UpStateView::RunningCommand {
                container,
                hook,
                user: if went_well(reply) {
                    dc.remote_user
                } else {
                    None
                },
                index: 0,
            },
        ),
{
}

// ---------------------------------------------------------------------------
// Drift
// ---------------------------------------------------------------------------

/// A file that defines the stack of a project: its configuration, one of its
/// compose files, or its Dockerfile.
pub open spec fn defines_stack(dc: DevcontainerView, file: Seq<char>) -> bool {
    ||| file == dc.config_file
    ||| exists|i: int|
        0 <= i < dc.compose_files.len() && file == under(
            under(dc.project_root, ".devcontainer"@),
            #[trigger] dc.compose_files[i],
        )
    ||| dc.dockerfile matches Some(dockerfile) && file == under(
        match above(dc.config_file) {
            Some(dir) => dir,
            None => Seq::<char>::empty(),
        },
        dockerfile,
    )
}

proof fn lemma_defines_stack(dc: DevcontainerView, file: Seq<char>)
    requires
        defines_stack(dc, file),
    ensures
        stack_of(dc).contains(file),
{
    law_stack_files(dc);
    if file == dc.config_file {
        assert(stack_of(dc)[0] == file);
    } else if exists|i: int|
        0 <= i < dc.compose_files.len() && file == under(
            under(dc.project_root, ".devcontainer"@),
            #[trigger] dc.compose_files[i],
        ) {
        let i = choose|i: int|
            0 <= i < dc.compose_files.len() && file == under(
                under(dc.project_root, ".devcontainer"@),
                #[trigger] dc.compose_files[i],
            );
        assert(stack_of(dc)[i + 1] == file);
    } else {
        assert(stack_of(dc)[stack_of(dc).len() - 1] == file);
    }
}

/// A file that is newer is among those that drifted.
proof fn lemma_drifted_holds(
    dc: DevcontainerView,
    created: i64,
    modified: spec_fn(Seq<char>) -> Option<i64>,
    upto: int,
    i: int,
)
    requires
        0 <= i < upto <= stack_of(dc).len(),
        newer(modified(stack_of(dc)[i]), created),
    ensures
        drifted(dc, created, modified, upto).contains(shown(stack_of(dc)[i], dc.project_root)),
    decreases upto,
{
    let all = drifted(dc, created, modified, upto);
    let rest = drifted(dc, created, modified, upto - 1);
    let name = shown(stack_of(dc)[i], dc.project_root);
    if i == upto - 1 {
        assert(all[all.len() - 1] == name);
    } else {
        lemma_drifted_holds(dc, created, modified, upto - 1, i);
        let k = choose|k: int| 0 <= k < rest.len() && rest[k] == name;
        assert(all[k] == name);
    }
}

/// A file of the stack that was modified after the container was made is
/// drift, whichever it is: the user is asked whether to rebuild, in words that
/// name the file; with `-y` the rebuild begins; and where nobody can be asked,
/// it is said and the container is connected to.
#[verifier::rlimit(40)]
pub proof fn law_newer_file_is_drift(
    dc: DevcontainerView,
    choices: Choices,
    container: ContainerView,
    compose: bool,
    created: i64,
    modified: spec_fn(Seq<char>) -> Option<i64>,
    file: Seq<char>,
    at: i64,
)
    requires
        defines_stack(dc, file),
        modified(file) == Some(at),
        at > created,
    ensures
        ({
            let end = up_run(
                dc,
                choices,
                to_file(dc, choices, container, compose, created, 0, seq![]),
                stack_of(dc).map_values(|f: Seq<char>| ReplyView::Seconds(modified(f))),
            );
            &&& !choices.assume_yes && choices.interactive ==> (end.next matches UpNextView::Wait(
                UpStateView::AskingRebuild { container: c, compose: k, question },
            ) && c == container && k == compose && occurs(question, shown(file, dc.project_root)))
            &&& choices.assume_yes ==> end == to_rebuild(dc, seq![], container, compose)
            &&& !choices.assume_yes && !choices.interactive ==> heads_for(end, container)
                && end.say.len() == 1 && occurs(end.say[0], shown(file, dc.project_root))
        }),
{
    let upto = stack_of(dc).len() as int;
    let name = shown(file, dc.project_root);
    let files = drifted(dc, created, modified, upto);
    let changed = changes(dc, compose, files);
    law_drift_is_newer_files(dc, choices, container, compose, created, modified);
    lemma_defines_stack(dc, file);
    let i = choose|i: int| 0 <= i < stack_of(dc).len() && stack_of(dc)[i] == file;
    lemma_drifted_holds(dc, created, modified, upto, i);
    let k = choose|k: int| 0 <= k < files.len() && files[k] == name;
    if compose != compose_based(dc) {
        assert(changed[k + 1] == name);
        law_joined_holds_each(changed, ", "@, k + 1);
    } else {
        assert(changed[k] == name);
        law_joined_holds_each(changed, ", "@, k);
    }
    let list = joined(changed, ", "@);
    lemma_occurs_inside(
        "\x1b[36mdevcon:\x1b[0m "@,
        list,
        " changed since this container was built. Rebuild it? [y/N] "@,
        name,
    );
    lemma_occurs_inside(
        "\x1b[33mdevcon:\x1b[0m "@,
        list,
        " changed since this container was built — run `devcon --rebuild` to recreate it."@,
        name,
    );
    law_found_container_is_kept(dc, seq![notice_text(changed)], container, false);
    lemma_hooks_say(dc, seq![notice_text(changed)], container);
}

proof fn lemma_hooks_say(dc: DevcontainerView, say: Seq<Seq<char>>, container: ContainerView)
    ensures
        to_hooks(dc, say, container, false).say == say,
{
}

/// A container of another kind than the declared one is drift by itself, even
/// where no file is newer.
pub proof fn law_other_kind_is_drift(
    dc: DevcontainerView,
    choices: Choices,
    container: ContainerView,
    compose: bool,
    files: Seq<Seq<char>>,
)
    requires
        compose != (dc.compose_files.len() > 0),
    ensures
        !choices.assume_yes && choices.interactive ==> (to_decision(
            dc,
            choices,
            container,
            compose,
            files,
        ).next matches UpNextView::Wait(UpStateView::AskingRebuild { container: c, compose: k, .. })
            && c == container && k == compose),
        choices.assume_yes ==> to_decision(dc, choices, container, compose, files) == to_rebuild(
            dc,
            seq![],
            container,
            compose,
        ),
{
}

/// Whether a running container belongs to a compose stack goes by its compose
/// project; when it was made goes by what docker says. Then each file of the
/// stack is looked at, from the first to the last.
pub proof fn law_drift_is_looked_for(
    dc: DevcontainerView,
    choices: Choices,
    container: ContainerView,
    compose: bool,
    created: i64,
    stdout: Seq<u8>,
    stderr: Seq<u8>,
    file: int,
    changed: Seq<Seq<char>>,
    reply: ReplyView,
)
    requires
        choices.rebuild == Rebuild::Auto,
    ensures
        up_start(dc, Some(container), choices).next == UpNextView::Wait(
            UpStateView::CheckingKind { container },
        ),
        ({
            let text = trimmed(utf8_lossy(stdout));
            let said = ReplyView::Ran(OutcomeView::Exited { success: true, stdout, stderr });
            &&& up_next(dc, choices, UpStateView::CheckingKind { container }, said).next
                == UpNextView::Wait(
                UpStateView::CheckingCreated {
                    container,
                    compose: text.len() > 0 && text != "<no value>"@,
                },
            )
            &&& text.len() > 0 && timestamp(text) == Some(created as int) ==> up_next(
                dc,
                choices,
                UpStateView::CheckingCreated { container, compose },
                said,
            ).next == UpNextView::Wait(
                UpStateView::CheckingFile {
                    container,
                    compose,
                    created,
                    file: 0,
                    changed: seq![],
                },
            )
        }),
        up_request(
            dc,
            UpStateView::CheckingFile { container, compose, created, file: 0, changed },
        ) == RequestView::Modified(dc.config_file),
        0 <= file < dc.compose_files.len() ==> up_request(
            dc,
            UpStateView::CheckingFile { container, compose, created, file: file + 1, changed },
        ) == RequestView::Modified(
            under(under(dc.project_root, ".devcontainer"@), dc.compose_files[file]),
        ),
        0 <= file < dc.compose_files.len() ==> (up_next(
            dc,
            choices,
            UpStateView::CheckingFile { container, compose, created, file, changed },
            reply,
        ).next matches UpNextView::Wait(
            UpStateView::CheckingFile { container: c, compose: k, created: t, file: f, changed: l },
        ) && c == container && k == compose && t == created && f == file + 1 && (reply
            matches ReplyView::Seconds(Some(at)) && at > created ==> l.len() == changed.len() + 1)),
{
    law_stack_files(dc);
}

// ---------------------------------------------------------------------------
// Bringing up
// ---------------------------------------------------------------------------

/// A step that brings the declared stack up: the compose files if there are
/// any, or else the image.
pub open spec fn brings_up(dc: DevcontainerView, step: UpStepView, anew: bool) -> bool {
    if dc.compose_files.len() > 0 {
        step.next == UpNextView::Wait(
            UpStateView::BringingUp {
                how: if anew {
                    BringUp::Recreate
                } else {
                    BringUp::Compose
                },
            },
        )
    } else if dc.image is Some {
        step.next == UpNextView::Wait(UpStateView::BringingUp { how: BringUp::Image })
    } else {
        step.next matches UpNextView::Done(Err(super::ErrorView::BringUpFailed(_)))
    }
}

/// A stack that is down is brought up where that is wanted: with `-y`, or on
/// an answer of nothing, `y` or `yes`. On any other answer nothing is done.
pub proof fn law_stack_is_started_on_a_yes(
    dc: DevcontainerView,
    choices: Choices,
    line: Seq<char>,
)
    ensures
        choices.assume_yes ==> brings_up(dc, up_start(dc, None, choices), false),
        !choices.assume_yes && choices.interactive ==> up_start(dc, None, choices).next
            == UpNextView::Wait(UpStateView::AskingStart),
        trimmed(line).len() == 0 || is_yes(line) ==> brings_up(
            dc,
            up_next(dc, choices, UpStateView::AskingStart, ReplyView::Line(Ok(line))),
            false,
        ),
        trimmed(line).len() > 0 && !is_yes(line) ==> up_next(
            dc,
            choices,
            UpStateView::AskingStart,
            ReplyView::Line(Ok(line)),
        ).next == UpNextView::Done(Ok(None)),
{
}

/// What is rebuilt is what runs: a standalone container is removed, a compose
/// stack that is still declared is recreated, and one that no longer is goes
/// by its project, or the container alone where that is not known. Then the
/// declared stack is brought up anew.
pub proof fn law_rebuild_replaces_what_runs(
    dc: DevcontainerView,
    choices: Choices,
    container: ContainerView,
    stdout: Seq<u8>,
    stderr: Seq<u8>,
    args: Seq<Seq<char>>,
    line: Seq<char>,
    question: Seq<char>,
    compose: bool,
)
    ensures
        to_rebuild(dc, seq![], container, false).next == UpNextView::Wait(
            UpStateView::Clearing { args: seq!["rm"@, "-f"@, container.id] },
        ),
        dc.compose_files.len() > 0 ==> brings_up(
            dc,
            to_rebuild(dc, seq![], container, true),
            true,
        ),
        dc.compose_files.len() == 0 ==> to_rebuild(dc, seq![], container, true).next
            == UpNextView::Wait(UpStateView::FetchingProject { container }),
        ({
            let project = trimmed(utf8_lossy(stdout));
            up_next(
                dc,
                choices,
                UpStateView::FetchingProject { container },
                ReplyView::Ran(OutcomeView::Exited { success: true, stdout, stderr }),
            ).next == UpNextView::Wait(
                UpStateView::Clearing {
                    args: if project.len() > 0 && project != "<no value>"@ {
                        seq!["compose"@, "-p"@, project, "down"@]
                    } else {
                        seq!["rm"@, "-f"@, container.id]
                    },
                },
            )
        }),
        brings_up(
            dc,
            up_next(
                dc,
                choices,
                UpStateView::Clearing { args },
                ReplyView::Ran(OutcomeView::Exited { success: true, stdout, stderr }),
            ),
            true,
        ),
        up_next(
            dc,
            choices,
            UpStateView::Clearing { args },
            ReplyView::Ran(OutcomeView::Exited { success: false, stdout, stderr }),
        ).next matches UpNextView::Done(Err(_)),
        is_yes(line) ==> up_next(
            dc,
            choices,
            UpStateView::AskingRebuild { container, compose, question },
            ReplyView::Line(Ok(line)),
        ) == to_rebuild(dc, seq![], container, compose),
        !is_yes(line) ==> heads_for(
            up_next(
                dc,
                choices,
                UpStateView::AskingRebuild { container, compose, question },
                ReplyView::Line(Ok(line)),
            ),
            container,
        ),
{
}

/// Compose works in the directory of the compose files and on all of them;
/// `docker run` starts the declared image.
pub proof fn law_bring_up_requests(dc: DevcontainerView, started: Seq<Seq<char>>)
    requires
        dc.run_services.len() > 0 ==> started == dc.run_services,
        dc.run_services.len() == 0 ==> started == match dc.service {
            Some(service) => seq![service],
            None => seq![],
        },
    ensures
        up_request(dc, UpStateView::BringingUp { how: BringUp::Compose }) matches RequestView::Run {
            args,
            dir: Some(dir),
        } && dir == under(dc.project_root, ".devcontainer"@) && composes(
            args,
            dc.compose_files,
            seq!["up"@, "-d"@] + started,
        ),
        up_request(dc, UpStateView::BringingUp { how: BringUp::Recreate })
            matches RequestView::Run { args, dir: Some(dir) } && dir == under(
            dc.project_root,
            ".devcontainer"@,
        ) && composes(
            args,
            dc.compose_files,
            seq!["up"@, "-d"@, "--build"@, "--force-recreate"@] + started,
        ),
        dc.image matches Some(image) ==> (up_request(
            dc,
            UpStateView::BringingUp { how: BringUp::Image },
        ) matches RequestView::Run { args, dir: None } && args.len() >= 15 && args[0] == "run"@
            && args[args.len() - 3] == image && args[5] == "devcontainer.local_folder="@
            + dc.project_root),
{
    law_compose_command_lines(dc, started);
    if let Some(image) = dc.image {
        law_image_command_line(dc, image);
    }
}

/// A stack that came up is searched for its dev container, and the one that is
/// found is the one that is connected to. One that did not come up, or has no
/// such container, is an error.
pub proof fn law_what_came_up_is_connected_to(
    dc: DevcontainerView,
    choices: Choices,
    how: BringUp,
    reply: ReplyView,
    at: FindStateView,
    container: ContainerView,
)
    ensures
        went_well(reply) ==> up_next(dc, choices, UpStateView::BringingUp { how }, reply).next
            == UpNextView::Wait(UpStateView::Locating { how, at: FindStateView::Listing }),
        !went_well(reply) ==> (up_next(dc, choices, UpStateView::BringingUp { how }, reply).next
            matches UpNextView::Done(Err(_))),
        find_next(dc, at, reply) == FindStepView::Done(Ok(Some(container))) ==> heads_for(
            up_next(dc, choices, UpStateView::Locating { how, at }, reply),
            container,
        ),
        find_next(dc, at, reply) == FindStepView::Done(Ok(None)) ==> up_next(
            dc,
            choices,
            UpStateView::Locating { how, at },
            reply,
        ).next == UpNextView::Wait(UpStateView::Diagnosing),
        up_next(dc, choices, UpStateView::Diagnosing, reply).next matches UpNextView::Done(Err(_)),
{
}

/// On a container that this run made from an image, the label says nothing of
/// postCreate, since it was stamped just now; on any other both signals count.
pub proof fn law_label_counts_on_what_was_there(
    dc: DevcontainerView,
    container: ContainerView,
    how: BringUp,
)
    requires
        dc.post_create.len() > 0,
    ensures
        to_container(dc, how, FindStepView::Done(Ok(Some(container)))).next == UpNextView::Wait(
            UpStateView::CheckingMarker {
                container,
                at: if how is Image {
                    MarkerState::Sentinel
                } else {
                    MarkerState::Label
                },
            },
        ),
{
}

/// Where it cannot be told when the container was made, no file counts as
/// newer; a container of another kind than the declared one is drift even
/// so.
pub proof fn law_unknown_age_leaves_the_kind(
    dc: DevcontainerView,
    choices: Choices,
    container: ContainerView,
    compose: bool,
    reply: ReplyView,
)
    requires
        !went_well(reply) || (reply->Ran_0 matches OutcomeView::Exited { stdout, .. } && timestamp(
            trimmed(utf8_lossy(stdout)),
        ) is None),
    ensures
        ({
            let next = up_next(
                dc,
                choices,
                UpStateView::CheckingCreated { container, compose },
                reply,
            );
            let switched = compose != (dc.compose_files.len() > 0);
            &&& !switched ==> heads_for(next, container)
            &&& switched && !choices.assume_yes && choices.interactive ==> (next.next
                matches UpNextView::Wait(
                UpStateView::AskingRebuild { container: c, compose: k, .. },
            ) && c == container && k == compose)
            &&& switched && choices.assume_yes ==> next == to_rebuild(
                dc,
                seq![],
                container,
                compose,
            )
            &&& switched && !choices.assume_yes && !choices.interactive ==> heads_for(
                next,
                container,
            ) && next.say.len() == 1
        }),
{
    let changed = changes(dc, compose, seq![]);
    law_found_container_is_kept(dc, seq![notice_text(changed)], container, false);
    lemma_hooks_say(dc, seq![notice_text(changed)], container);
}

/// A command that fails ends its hook: it is neither followed by another of
/// the hook nor recorded. After postCreate postStart is still due.
pub proof fn law_failed_command_ends_its_hook(
    dc: DevcontainerView,
    choices: Choices,
    container: ContainerView,
    sentinel: Seq<char>,
    user: Option<Seq<char>>,
    index: int,
    reply: ReplyView,
)
    requires
        !went_well(reply),
        reply->Ran_0 is Missing || reply->Ran_0 is Failed || reply->Ran_0 is Exited,
    ensures
        up_next(
            dc,
            choices,
            UpStateView::RunningCommand {
                container,
                hook: HookView::Start(sentinel),
                user,
                index,
            },
            reply,
        ).next == UpNextView::Done(Ok(Some(container))),
        up_next(
            dc,
            choices,
            UpStateView::RunningCommand { container, hook: HookView::Create, user, index },
            reply,
        ).next == if dc.post_start.len() > 0 {
            UpNextView::Wait(UpStateView::CheckingStart { container })
        } else {
            UpNextView::Done(Ok(Some(container)))
        },
        up_next(
            dc,
            choices,
            UpStateView::RunningCommand { container, hook: HookView::Create, user, index },
            reply,
        ).say.len() == 1,
{
}

/// With `--rebuild` what runs is replaced at once, as what it is: a container
/// of a compose project as a compose stack, any other as a container.
pub proof fn law_force_rebuilds_what_runs(
    dc: DevcontainerView,
    choices: Choices,
    container: ContainerView,
    reply: ReplyView,
)
    requires
        choices.rebuild == Rebuild::Force,
    ensures
        up_start(dc, Some(container), choices).next == UpNextView::Wait(
            UpStateView::CheckingKind { container },
        ),
        up_request(dc, UpStateView::CheckingKind { container }) == RequestView::Capture(
            seq![
                "inspect"@,
                "-f"@,
                "{{index .Config.Labels \"com.docker.compose.project\"}}"@,
                container.id,
            ],
        ),
        reply->Ran_0 matches OutcomeView::Exited { success: true, stdout, .. } ==> up_next(
            dc,
            choices,
            UpStateView::CheckingKind { container },
            reply,
        ) == to_rebuild(
            dc,
            seq![],
            container,
            trimmed(utf8_lossy(stdout)).len() > 0 && trimmed(utf8_lossy(stdout)) != "<no value>"@,
        ),
        !went_well(reply) ==> up_next(
            dc,
            choices,
            UpStateView::CheckingKind { container },
            reply,
        ) == to_rebuild(dc, seq![], container, false),
{
}

} // verus!

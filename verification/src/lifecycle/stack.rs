//! Bringing a stack up and down: what docker is told to do.

use super::{exited_well, ran, Error, ErrorView, TearDown};
use crate::codename::codename;
use crate::devcontainer::{compose_based, config_dir, workspace_of, Devcontainer, DevcontainerView};
use crate::docker::container::{add_arg, add_args, exec_stop, remove, remove_args, stop_args};
use crate::docker::{
    captured, run_docker, run_status, status_of, Container, ContainerView, MARKER_LABEL,
};
use crate::path::{join, under};
use crate::request::{seen, strings, Outcome, OutcomeView, Reply, Request, RequestView};
use vstd::prelude::*;

verus! {

// ---------------------------------------------------------------------------
// Up
// ---------------------------------------------------------------------------

/// `-f` before each of the compose files.
pub open spec fn file_args(files: Seq<Seq<char>>) -> Seq<Seq<char>>
    decreases files.len(),
{
    if files.len() == 0 {
        seq![]
    } else {
        file_args(files.drop_last()) + seq!["-f"@, files.last()]
    }
}

/// The services to start: the declared `runServices`, or else the primary
/// service if it is named.
pub open spec fn services(dc: DevcontainerView) -> Seq<Seq<char>> {
    if dc.run_services.len() > 0 {
        dc.run_services
    } else {
        match dc.service {
            Some(service) => seq![service],
            None => seq![],
        }
    }
}

/// `docker compose -f ... up -d [services]`.
pub open spec fn up_args(dc: DevcontainerView) -> Seq<Seq<char>> {
    seq!["compose"@] + file_args(dc.compose_files) + seq!["up"@, "-d"@] + services(dc)
}

/// `docker compose -f ... up -d --build --force-recreate [services]`.
pub open spec fn rebuild_args(dc: DevcontainerView) -> Seq<Seq<char>> {
    seq!["compose"@] + file_args(dc.compose_files) + seq![
        "up"@,
        "-d"@,
        "--build"@,
        "--force-recreate"@,
    ] + services(dc)
}

/// `docker run` for an image, with the project root mounted as the workspace
/// and the labels that the container is found and told apart by. It is kept
/// alive by `sleep infinity`; the shell comes later.
pub open spec fn run_args(dc: DevcontainerView, image: Seq<char>) -> Seq<Seq<char>> {
    let workspace = workspace_of(dc);
    seq![
        "run"@,
        "-d"@,
        "--name"@,
        "devcon-"@ + codename(dc.project_root),
        "--label"@,
        "devcontainer.local_folder="@ + dc.project_root,
        "--mount"@,
        "type=bind,source="@ + dc.project_root + ",target="@ + workspace,
        "-w"@,
        workspace,
        "--label"@,
        MARKER_LABEL@ + "=1"@,
    ] + match dc.remote_user {
        Some(user) => seq!["-u"@, user],
        None => seq![],
    } + seq![image, "sleep"@, "infinity"@]
}

/// `compose` and the compose files.
fn compose(dc: &Devcontainer) -> (r: Vec<String>)
    ensures
        r.deep_view() == seq!["compose"@] + file_args(dc.compose_files.deep_view()),
{
    let mut r = strings(&["compose"]);
    assert(r.deep_view() == seq!["compose"@]);
    let ghost files = dc.compose_files.deep_view();
    let mut i: usize = 0;
    assert(files.take(0) == Seq::<Seq<char>>::empty());
    while i < dc.compose_files.len()
        invariant
            files == dc.compose_files.deep_view(),
            i <= dc.compose_files.len(),
            r.deep_view() == seq!["compose"@] + file_args(files.take(i as int)),
        decreases dc.compose_files.len() - i,
    {
        let ghost had = r.deep_view();
        add_arg(&mut r, "-f");
        add_arg(&mut r, dc.compose_files[i].as_str());
        assert(files[i as int] == dc.compose_files@[i as int]@);
        assert(files.take(i + 1).drop_last() == files.take(i as int));
        assert(r.deep_view() == had + seq!["-f"@, files[i as int]]);
        i += 1;
        assert(r.deep_view() == seq!["compose"@] + file_args(files.take(i as int)));
    }
    assert(files.take(i as int) == files);
    r
}

/// Append the services to start.
fn push_services(r: &mut Vec<String>, dc: &Devcontainer)
    ensures
        final(r).deep_view() == old(r).deep_view() + services(dc.deep_view()),
{
    let ghost had = r.deep_view();
    if dc.run_services.len() > 0 {
        add_args(r, &dc.run_services);
    } else if let Some(service) = &dc.service {
        add_arg(r, service.as_str());
        assert(r.deep_view() == had + seq![service@]);
    } else {
        assert(r.deep_view() == had + Seq::<Seq<char>>::empty());
    }
}

/// The arguments that start a compose stack.
pub fn bring_up_compose(dc: &Devcontainer) -> (r: Vec<String>)
    ensures
        r.deep_view() == up_args(dc.deep_view()),
{
    let mut r = compose(dc);
    let ghost had = r.deep_view();
    add_arg(&mut r, "up");
    add_arg(&mut r, "-d");
    assert(r.deep_view() == had + seq!["up"@, "-d"@]);
    push_services(&mut r, dc);
    r
}

/// The arguments that recreate a compose stack. `--build` picks up Dockerfile
/// edits; `--force-recreate` picks up compose / devcontainer.json edits even
/// when the image is unchanged.
pub fn rebuild_compose(dc: &Devcontainer) -> (r: Vec<String>)
    ensures
        r.deep_view() == rebuild_args(dc.deep_view()),
{
    let mut r = compose(dc);
    let ghost had = r.deep_view();
    add_arg(&mut r, "up");
    add_arg(&mut r, "-d");
    add_arg(&mut r, "--build");
    add_arg(&mut r, "--force-recreate");
    assert(r.deep_view() == had + seq!["up"@, "-d"@, "--build"@, "--force-recreate"@]);
    push_services(&mut r, dc);
    r
}

/// The arguments that run a container from an image.
pub fn bring_up_image(dc: &Devcontainer, image: &str) -> (r: Vec<String>)
    ensures
        r.deep_view() == run_args(dc.deep_view(), image@),
{
    let root = dc.project_root.as_str();
    let workspace = dc.resolved_workspace_folder();
    let mut name: String = "devcon-".to_owned();
    name.append(crate::codename::derive(root).as_str());
    let mut local_folder: String = "devcontainer.local_folder=".to_owned();
    local_folder.append(root);
    let mut mount: String = "type=bind,source=".to_owned();
    mount.append(root);
    mount.append(",target=");
    mount.append(workspace.as_str());
    let mut marker: String = MARKER_LABEL.to_owned();
    marker.append("=1");
    let ghost view = dc.deep_view();
    let ghost front = seq![
        "run"@,
        "-d"@,
        "--name"@,
        "devcon-"@ + codename(view.project_root),
        "--label"@,
        "devcontainer.local_folder="@ + view.project_root,
        "--mount"@,
        "type=bind,source="@ + view.project_root + ",target="@ + workspace_of(view),
        "-w"@,
        workspace_of(view),
        "--label"@,
        MARKER_LABEL@ + "=1"@,
    ];
    let mut r = strings(
        &[
            "run",
            "-d",
            "--name",
            name.as_str(),
            "--label",
            local_folder.as_str(),
            "--mount",
            mount.as_str(),
            "-w",
            workspace.as_str(),
            "--label",
            marker.as_str(),
        ],
    );
    assert(r.deep_view() == front);
    if let Some(user) = &dc.remote_user {
        add_arg(&mut r, "-u");
        add_arg(&mut r, user.as_str());
        assert(r.deep_view() == front + seq!["-u"@, user@]);
    } else {
        assert(r.deep_view() == front + Seq::<Seq<char>>::empty());
    }
    let ghost had = r.deep_view();
    add_arg(&mut r, image);
    add_arg(&mut r, "sleep");
    add_arg(&mut r, "infinity");
    assert(r.deep_view() == had + seq![image@, "sleep"@, "infinity"@]);
    r
}

// ---------------------------------------------------------------------------
// Down
// ---------------------------------------------------------------------------

/// What `docker compose` is told to do with a stack.
pub open spec fn verb(mode: TearDown) -> Seq<char> {
    match mode {
        TearDown::Remove => "down"@,
        TearDown::Stop => "stop"@,
    }
}

/// `docker compose -f ... down` (or `stop`): the whole stack, not only the
/// services that were started. Down means down.
pub open spec fn down_args(dc: DevcontainerView, mode: TearDown) -> Seq<Seq<char>> {
    seq!["compose"@] + file_args(dc.compose_files) + seq![verb(mode)]
}

/// What is being waited for on the way down.
#[derive(Debug)]
pub enum DownState {
    /// `docker compose` for the whole stack.
    Compose,
    /// `docker rm -f` for the container.
    Removing(Container),
    /// `docker stop` for the container.
    Stopping(Container),
}

/// A [`DownState`] as plain values.
#[verifier::ext_equal]
pub enum DownStateView {
    Compose,
    Removing(ContainerView),
    Stopping(ContainerView),
}

impl DeepView for DownState {
    type V = DownStateView;

    open spec fn deep_view(&self) -> DownStateView {
        match self {
            DownState::Compose => DownStateView::Compose,
            DownState::Removing(c) => DownStateView::Removing(c.deep_view()),
            DownState::Stopping(c) => DownStateView::Stopping(c.deep_view()),
        }
    }
}

/// How bringing a stack down begins.
#[derive(Debug)]
pub enum DownStep {
    /// Say this, do what is asked for, then go on from the state with the
    /// answer.
    Wait { say: String, request: Request, state: DownState },
    /// Say this; there is nothing to do.
    Nothing { say: String },
}

/// A [`DownStep`] as plain values.
#[verifier::ext_equal]
pub enum DownStepView {
    Wait { say: Seq<char>, request: RequestView, state: DownStateView },
    Nothing { say: Seq<char> },
}

impl DeepView for DownStep {
    type V = DownStepView;

    open spec fn deep_view(&self) -> DownStepView {
        match self {
            DownStep::Wait { say, request, state } => DownStepView::Wait {
                say: say@,
                request: request.deep_view(),
                state: state.deep_view(),
            },
            DownStep::Nothing { say } => DownStepView::Nothing { say: say@ },
        }
    }
}

/// What a state on the way down waits for.
pub open spec fn down_request(
    dc: DevcontainerView,
    mode: TearDown,
    at: DownStateView,
) -> RequestView {
    match at {
        DownStateView::Compose => RequestView::Run {
            args: down_args(dc, mode),
            dir: Some(config_dir(dc.project_root)),
        },
        DownStateView::Removing(c) => RequestView::Capture(remove_args(c.id)),
        DownStateView::Stopping(c) => RequestView::Run { args: stop_args(c.id), dir: None },
    }
}

/// How bringing a stack down begins.
pub open spec fn down_start(
    dc: DevcontainerView,
    existing: Option<ContainerView>,
    mode: TearDown,
) -> DownStepView {
    if compose_based(dc) {
        DownStepView::Wait {
            say: "\x1b[36mdevcon:\x1b[0m "@ + verb(mode) + " compose stack…"@,
            request: down_request(dc, mode, DownStateView::Compose),
            state: DownStateView::Compose,
        }
    } else {
        match (existing, mode) {
            (Some(c), TearDown::Remove) => DownStepView::Wait {
                say: "\x1b[36mdevcon:\x1b[0m removing "@ + c.name + "…"@,
                request: down_request(dc, mode, DownStateView::Removing(c)),
                state: DownStateView::Removing(c),
            },
            (Some(c), TearDown::Stop) => DownStepView::Wait {
                say: "\x1b[36mdevcon:\x1b[0m stopping "@ + c.name + "…"@,
                request: down_request(dc, mode, DownStateView::Stopping(c)),
                state: DownStateView::Stopping(c),
            },
            (None, _) => DownStepView::Nothing {
                say: "\x1b[36mdevcon:\x1b[0m nothing to stop — no container is running."@,
            },
        }
    }
}

/// What bringing a stack down comes to, by how the work went.
pub open spec fn down_end(mode: TearDown, at: DownStateView, outcome: OutcomeView) -> Result<
    (),
    ErrorView,
> {
    match at {
        DownStateView::Compose => match ran(outcome) {
            Ok(true) => Ok(()),
            Ok(false) => Err(
                ErrorView::BringDownFailed("docker compose "@ + verb(mode) + " failed"@),
            ),
            Err(e) => Err(e),
        },
        DownStateView::Removing(c) => match captured(remove_args(c.id), outcome) {
            Ok(_) => Ok(()),
            Err(e) => Err(ErrorView::Docker(e)),
        },
        DownStateView::Stopping(_) => match status_of(outcome) {
            Ok(true) => Ok(()),
            Ok(false) => Err(ErrorView::BringDownFailed("docker stop failed"@)),
            Err(e) => Err(ErrorView::Docker(e)),
        },
    }
}

fn verb_of(mode: TearDown) -> (r: &'static str)
    ensures
        r@ == verb(mode),
{
    match mode {
        TearDown::Remove => "down",
        TearDown::Stop => "stop",
    }
}

/// `docker compose ... down` (or `stop`) for the project's compose stack.
fn bring_down_compose(dc: &Devcontainer, mode: TearDown) -> (r: DownStep)
    ensures
        compose_based(dc.deep_view()) ==> r.deep_view() == down_start(dc.deep_view(), None, mode),
        r is Wait,
{
    let mut say: String = "\x1b[36mdevcon:\x1b[0m ".to_owned();
    say.append(verb_of(mode));
    say.append(" compose stack…");
    let mut args = compose(dc);
    let ghost had = args.deep_view();
    add_arg(&mut args, verb_of(mode));
    assert(args.deep_view() == had + seq![verb(mode)]);
    let dir = Some(join(dc.project_root.as_str(), ".devcontainer"));
    DownStep::Wait { say, request: Request::Run { args, dir }, state: DownState::Compose }
}

/// Stop or remove a single image-based container.
fn bring_down_image(container: Container, mode: TearDown) -> (r: DownStep)
    ensures
        forall|dc: DevcontainerView|
            !compose_based(dc) ==> r.deep_view() == #[trigger] down_start(
                dc,
                Some(container.deep_view()),
                mode,
            ),
{
    match mode {
        TearDown::Remove => {
            let mut say: String = "\x1b[36mdevcon:\x1b[0m removing ".to_owned();
            say.append(container.name.as_str());
            say.append("…");
            let args = remove(&container);
            DownStep::Wait {
                say,
                request: Request::Capture(args),
                state: DownState::Removing(container),
            }
        },
        TearDown::Stop => {
            let mut say: String = "\x1b[36mdevcon:\x1b[0m stopping ".to_owned();
            say.append(container.name.as_str());
            say.append("…");
            let args = exec_stop(&container);
            DownStep::Wait {
                say,
                request: Request::Run { args, dir: None },
                state: DownState::Stopping(container),
            }
        },
    }
}

/// Bring the project's stack down: the first step. Compose stacks use `docker
/// compose down` (or `stop`); image-based ones remove (or stop) the discovered
/// container.
///
/// `existing` is the container that was located, if any. For compose, `down`
/// works from the compose files even without one; for image-based stacks there
/// is nothing to do without a container.
pub fn bring_down(dc: &Devcontainer, existing: Option<Container>, mode: TearDown) -> (r: DownStep)
    ensures
        r.deep_view() == down_start(dc.deep_view(), existing.deep_view(), mode),
{
    if dc.is_compose() {
        bring_down_compose(dc, mode)
    } else {
        match existing {
            Some(c) => bring_down_image(c, mode),
            None => DownStep::Nothing {
                say: "\x1b[36mdevcon:\x1b[0m nothing to stop — no container is running.".to_owned(),
            },
        }
    }
}

/// End bringing the stack down, with the answer that was waited for.
pub fn bring_down_on(mode: TearDown, at: DownState, reply: Reply) -> (r: Result<(), Error>)
    requires
        reply is Ran,
    ensures
        seen(r) == down_end(mode, at.deep_view(), reply.deep_view()->Ran_0),
{
    let outcome = match reply {
        Reply::Ran(outcome) => outcome,
        _ => Outcome::Missing,
    };
    match at {
        DownState::Compose => match exited_well(outcome) {
            Ok(true) => Ok(()),
            Ok(false) => {
                let mut msg: String = "docker compose ".to_owned();
                msg.append(verb_of(mode));
                msg.append(" failed");
                Err(Error::BringDownFailed(msg))
            },
            Err(e) => Err(e),
        },
        DownState::Removing(c) => match run_docker(&remove(&c), outcome) {
            Ok(_) => Ok(()),
            Err(e) => Err(Error::Docker(e)),
        },
        DownState::Stopping(_) => match run_status(outcome) {
            Ok(true) => Ok(()),
            Ok(false) => Err(Error::BringDownFailed("docker stop failed".to_owned())),
            Err(e) => Err(Error::Docker(e)),
        },
    }
}

// ---------------------------------------------------------------------------
// Laws
// ---------------------------------------------------------------------------

/// Stopping keeps the containers: what docker is told to do is to stop, and
/// never to remove or bring down.
pub proof fn law_stop_keeps_containers(dc: DevcontainerView, existing: Option<ContainerView>)
    ensures
        match down_start(dc, existing, TearDown::Stop) {
            DownStepView::Wait { request: RequestView::Run { args, .. }, .. } => args.last()
                == "stop"@ || args[0] == "stop"@,
            DownStepView::Wait { .. } => false,
            DownStepView::Nothing { .. } => true,
        },
{
    assert(down_args(dc, TearDown::Stop).last() == "stop"@);
}

/// With nothing running and no compose stack, bringing down does nothing.
pub proof fn law_nothing_to_bring_down(dc: DevcontainerView, mode: TearDown)
    requires
        !compose_based(dc),
    ensures
        down_start(dc, None, mode) is Nothing,
{
}

/// Every compose file is named, once and in order, with `-f` before it.
pub proof fn law_every_compose_file_is_named(files: Seq<Seq<char>>, i: int)
    ensures
        file_args(files).len() == 2 * files.len(),
        0 <= i < files.len() ==> file_args(files)[2 * i] == "-f"@,
        0 <= i < files.len() ==> file_args(files)[2 * i + 1] == files[i],
    decreases files.len(),
{
    if files.len() > 0 {
        let rest = files.drop_last();
        law_every_compose_file_is_named(rest, i);
        let args = file_args(files);
        if 0 <= i < rest.len() {
            assert(args[2 * i] == file_args(rest)[2 * i]);
            assert(args[2 * i + 1] == file_args(rest)[2 * i + 1]);
        }
    }
}

/// A command line of `docker compose`: every compose file of the project, in
/// order, then what is to be done, word by word.
pub open spec fn composes(
    args: Seq<Seq<char>>,
    files: Seq<Seq<char>>,
    words: Seq<Seq<char>>,
) -> bool {
    &&& args.len() == 1 + 2 * files.len() + words.len()
    &&& args[0] == "compose"@
    &&& forall|i: int|
        0 <= i < files.len() ==> args.subrange(1 + 2 * i, 3 + 2 * i) == seq![
            "-f"@,
            #[trigger] files[i],
        ]
    &&& forall|i: int|
        0 <= i < words.len() ==> args[1 + 2 * files.len() + i] == #[trigger] words[i]
}

proof fn lemma_composes(files: Seq<Seq<char>>, words: Seq<Seq<char>>, args: Seq<Seq<char>>)
    requires
        args == seq!["compose"@] + file_args(files) + words,
    ensures
        composes(args, files, words),
{
    let named = file_args(files);
    law_every_compose_file_is_named(files, 0);
    assert forall|i: int| 0 <= i < files.len() implies args.subrange(1 + 2 * i, 3 + 2 * i) == seq![
        "-f"@,
        #[trigger] files[i],
    ] by {
        law_every_compose_file_is_named(files, i);
        assert(args[1 + 2 * i] == named[2 * i]);
        assert(args[2 + 2 * i] == named[2 * i + 1]);
    }
    assert forall|i: int| 0 <= i < words.len() implies args[1 + 2 * files.len() + i]
        == #[trigger] words[i] by {}
}

/// A compose stack is started, recreated and brought down from all its files.
/// What is started are the services of `runServices`, or else the declared
/// one, or else all; what is brought down is always all.
pub proof fn law_compose_command_lines(dc: DevcontainerView, started: Seq<Seq<char>>)
    requires
        dc.run_services.len() > 0 ==> started == dc.run_services,
        dc.run_services.len() == 0 ==> started == match dc.service {
            Some(service) => seq![service],
            None => seq![],
        },
    ensures
        composes(up_args(dc), dc.compose_files, seq!["up"@, "-d"@] + started),
        composes(
            rebuild_args(dc),
            dc.compose_files,
            seq!["up"@, "-d"@, "--build"@, "--force-recreate"@] + started,
        ),
        composes(down_args(dc, TearDown::Remove), dc.compose_files, seq!["down"@]),
        composes(down_args(dc, TearDown::Stop), dc.compose_files, seq!["stop"@]),
{
    let front = seq!["compose"@] + file_args(dc.compose_files);
    assert(up_args(dc) == front + (seq!["up"@, "-d"@] + started));
    lemma_composes(dc.compose_files, seq!["up"@, "-d"@] + started, up_args(dc));
    assert(rebuild_args(dc) == front + (seq!["up"@, "-d"@, "--build"@, "--force-recreate"@]
        + started));
    lemma_composes(
        dc.compose_files,
        seq!["up"@, "-d"@, "--build"@, "--force-recreate"@] + started,
        rebuild_args(dc),
    );
    lemma_composes(dc.compose_files, seq!["down"@], down_args(dc, TearDown::Remove));
    lemma_composes(dc.compose_files, seq!["stop"@], down_args(dc, TearDown::Stop));
}

/// A container that is run from an image carries the label that it is found
/// by, the project root itself, and the marker; has the project root bound
/// where the workspace is, and its working directory there; runs as the
/// declared user if there is one; and is kept alive.
pub proof fn law_image_command_line(dc: DevcontainerView, image: Seq<char>)
    ensures
        ({
            let args = run_args(dc, image);
            let workspace = workspace_of(dc);
            &&& args.len() == 15 + if dc.remote_user is Some {
                2int
            } else {
                0int
            }
            &&& args[0] == "run"@ && args[1] == "-d"@
            &&& args[2] == "--name"@ && args[3] == "devcon-"@ + codename(dc.project_root)
            &&& args[4] == "--label"@ && args[5] == "devcontainer.local_folder="@ + dc.project_root
            &&& args[6] == "--mount"@ && args[7] == "type=bind,source="@ + dc.project_root
                + ",target="@ + workspace
            &&& args[8] == "-w"@ && args[9] == workspace
            &&& args[10] == "--label"@ && args[11] == "dev.devcon.postcreate=1"@
            &&& dc.remote_user matches Some(user) ==> args[12] == "-u"@ && args[13] == user
            &&& args[args.len() - 3] == image
            &&& args[args.len() - 2] == "sleep"@ && args[args.len() - 1] == "infinity"@
        }),
{
    reveal_strlit("dev.devcon.postcreate=1");
    reveal_strlit("dev.devcon.postcreate");
    reveal_strlit("=1");
    assert(MARKER_LABEL@ + "=1"@ == "dev.devcon.postcreate=1"@);
}

/// Bringing down acts on what the project declares: the whole compose stack,
/// from the directory of its files, or the container that was found; it is
/// removed, or only stopped where that is asked for.
pub proof fn law_bring_down(dc: DevcontainerView, existing: Option<ContainerView>, mode: TearDown)
    ensures
        match down_start(dc, existing, mode) {
            DownStepView::Wait { request: RequestView::Run { args, dir }, state, .. } => {
                ||| dc.compose_files.len() > 0 && state is Compose && dir == Some(
                    under(dc.project_root, ".devcontainer"@),
                ) && composes(
                    args,
                    dc.compose_files,
                    seq![
                        if mode is Stop {
                            "stop"@
                        } else {
                            "down"@
                        },
                    ],
                )
                ||| dc.compose_files.len() == 0 && mode is Stop && (existing matches Some(c)
                    && state == DownStateView::Stopping(c) && args == seq!["stop"@, c.id])
            },
            DownStepView::Wait { request: RequestView::Capture(args), state, .. } => {
                dc.compose_files.len() == 0 && mode is Remove && (existing matches Some(c) && state
                    == DownStateView::Removing(c) && args == seq!["rm"@, "-f"@, c.id])
            },
            DownStepView::Wait { .. } => false,
            DownStepView::Nothing { .. } => dc.compose_files.len() == 0 && existing is None,
        },
{
    lemma_composes(dc.compose_files, seq![verb(mode)], down_args(dc, mode));
}

/// Bringing down ends well only if docker did: a command that could not be run
/// or that exited badly is an error.
pub proof fn law_down_ends_as_docker_did(mode: TearDown, at: DownStateView, outcome: OutcomeView)
    ensures
        down_end(mode, at, outcome) is Ok <==> outcome matches OutcomeView::Exited {
            success: true,
            ..
        },
{
}

} // verus!

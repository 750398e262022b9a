//! What is asked of one container, and what its answers mean.

use super::projects::NO_VALUE;
use super::{
    captured_text, inspect, inspect_args, run_docker_text, status_of, Container, Error,
    ErrorView, MARKER_LABEL, MARKER_SENTINEL,
};
use crate::devcontainer::{compose_based, Devcontainer};
use crate::request::{
    answers, seen, strings, Outcome, OutcomeView, Reply, ReplyView, Request, RequestView,
};
use crate::text::{
    cut_at, first_pieces, index_of, law_first_pieces, lemma_cut_at, lemma_index_cuts, lines,
    lines_of, same, splitn, starts_with, trim, trimmed,
};
use vstd::prelude::*;

verus! {

// ---------------------------------------------------------------------------
// Inspection
// ---------------------------------------------------------------------------

/// What an answer says once trimmed, if that is anything.
pub open spec fn stated(answer: Result<Seq<char>, ErrorView>) -> Option<Seq<char>> {
    match answer {
        Ok(text) => if trimmed(text).len() > 0 {
            Some(trimmed(text))
        } else {
            None
        },
        Err(_) => None,
    }
}

/// What an answer on a label says, if the label is there.
pub open spec fn stated_label(answer: Result<Seq<char>, ErrorView>) -> Option<Seq<char>> {
    match stated(answer) {
        Some(text) => if text == NO_VALUE@ {
            None
        } else {
            Some(text)
        },
        None => None,
    }
}

fn trimmed_answer(answer: &Result<String, Error>) -> (r: Option<String>)
    ensures
        r.deep_view() == stated(seen(*answer)),
{
    match answer {
        Ok(text) => {
            let s = trim(text.as_str());
            if s.is_empty() {
                None
            } else {
                Some(s.to_owned())
            }
        },
        Err(_) => None,
    }
}

fn label_answer(answer: &Result<String, Error>) -> (r: Option<String>)
    ensures
        r.deep_view() == stated_label(seen(*answer)),
{
    match trimmed_answer(answer) {
        Some(text) => if same(text.as_str(), NO_VALUE) {
            None
        } else {
            Some(text)
        },
        None => None,
    }
}

/// What `docker inspect` is asked for the creation time of a container.
pub open spec fn created_args(id: Seq<char>) -> Seq<Seq<char>> {
    inspect_args("{{.Created}}"@, id)
}

/// What `docker inspect` is asked for the creation time of a container.
pub fn created_at_args(container: &Container) -> (r: Vec<String>)
    ensures
        r.deep_view() == created_args(container.id@),
{
    inspect("{{.Created}}", container.id.as_str())
}

/// The container's creation timestamp, from what `docker inspect` answered.
/// Stable for the life of the container: the baseline for drift detection.
pub fn created_at(answer: &Result<String, Error>) -> (r: Option<String>)
    ensures
        r.deep_view() == stated(seen(*answer)),
{
    trimmed_answer(answer)
}

/// What `docker inspect` is asked for the start time of a container.
pub open spec fn started_args(id: Seq<char>) -> Seq<Seq<char>> {
    inspect_args("{{.State.StartedAt}}"@, id)
}

/// What `docker inspect` is asked for the start time of a container.
pub fn started_at_args(container: &Container) -> (r: Vec<String>)
    ensures
        r.deep_view() == started_args(container.id@),
{
    inspect("{{.State.StartedAt}}", container.id.as_str())
}

/// The container's current start timestamp, from what `docker inspect`
/// answered. Changes on every (re)start, stable across connects.
pub fn started_at(answer: &Result<String, Error>) -> (r: Option<String>)
    ensures
        r.deep_view() == stated(seen(*answer)),
{
    trimmed_answer(answer)
}

/// What `docker inspect` is asked for the compose project of a container.
pub open spec fn project_args(id: Seq<char>) -> Seq<Seq<char>> {
    inspect_args("{{index .Config.Labels \"com.docker.compose.project\"}}"@, id)
}

/// What `docker inspect` is asked for the compose project of a container.
pub fn compose_project_args(container: &Container) -> (r: Vec<String>)
    ensures
        r.deep_view() == project_args(container.id@),
{
    inspect("{{index .Config.Labels \"com.docker.compose.project\"}}", container.id.as_str())
}

/// The container's compose project, if it belongs to one, from what `docker
/// inspect` answered. Present: the container is part of a compose stack.
/// Absent: it is a standalone image container.
pub fn compose_project(answer: &Result<String, Error>) -> (r: Option<String>)
    ensures
        r.deep_view() == stated_label(seen(*answer)),
{
    label_answer(answer)
}

/// True if the container is part of a compose stack, from what `docker
/// inspect` answered on its compose project.
pub fn is_compose_container(answer: &Result<String, Error>) -> (r: bool)
    ensures
        r == (stated_label(seen(*answer)) is Some),
{
    compose_project(answer).is_some()
}

/// What `docker inspect` is asked for whether a container runs.
pub open spec fn running_args(id: Seq<char>) -> Seq<Seq<char>> {
    inspect_args("{{.State.Running}}"@, id)
}

/// What `docker inspect` is asked for whether a container runs.
pub fn container_running_args(container: &Container) -> (r: Vec<String>)
    ensures
        r.deep_view() == running_args(container.id@),
{
    inspect("{{.State.Running}}", container.id.as_str())
}

/// True if the container runs, from what `docker inspect` answered.
pub fn container_running(answer: &Result<String, Error>) -> (r: bool)
    ensures
        r == (stated(seen(*answer)) == Some("true"@)),
{
    match trimmed_answer(answer) {
        Some(text) => same(text.as_str(), "true"),
        None => false,
    }
}

/// What `docker inspect` is asked for the mounts of a container.
pub open spec fn mounts_args(id: Seq<char>) -> Seq<Seq<char>> {
    inspect_args("{{range .Mounts}}{{.Source}}\t{{.Destination}}\n{{end}}"@, id)
}

/// What `docker inspect` is asked for the mounts of a container: one line per
/// mount, `<source>\t<destination>`.
pub fn workspace_mount_args(container: &Container) -> (r: Vec<String>)
    ensures
        r.deep_view() == mounts_args(container.id@),
{
    inspect("{{range .Mounts}}{{.Source}}\t{{.Destination}}\n{{end}}", container.id.as_str())
}

/// The source of a mount.
pub open spec fn mount_source(line: Seq<char>) -> Seq<char> {
    trimmed(first_pieces(line, '\t', 2)[0])
}

/// The destination of a mount; empty where the line gives none.
pub open spec fn mount_destination(line: Seq<char>) -> Seq<char> {
    let f = first_pieces(line, '\t', 2);
    if f.len() > 1 {
        trimmed(f[1])
    } else {
        seq![]
    }
}

/// A mount of the project root.
pub open spec fn binds_root(line: Seq<char>, root: Seq<char>) -> bool {
    mount_destination(line).len() > 0 && mount_source(line) == root
}

/// A mount to somewhere in `/workspaces/`.
pub open spec fn binds_workspace(line: Seq<char>) -> bool {
    mount_destination(line).len() > 0 && "/workspaces/"@.is_prefix_of(mount_destination(line))
}

/// The destination of the first line, from line `i` on, that binds the root.
pub open spec fn root_destination(list: Seq<Seq<char>>, root: Seq<char>, i: int) -> Option<Seq<char>>
    decreases list.len() - i,
{
    if i >= list.len() {
        None
    } else if binds_root(list[i], root) {
        Some(mount_destination(list[i]))
    } else {
        root_destination(list, root, i + 1)
    }
}

/// The destination of the first line, from line `i` on, that goes to
/// `/workspaces/`.
pub open spec fn workspace_destination(list: Seq<Seq<char>>, i: int) -> Option<Seq<char>>
    decreases list.len() - i,
{
    if i >= list.len() {
        None
    } else if binds_workspace(list[i]) {
        Some(mount_destination(list[i]))
    } else {
        workspace_destination(list, i + 1)
    }
}

/// Where the mounts of a container put the workspace: where the project root
/// is bound, or else the first place in `/workspaces/`.
pub open spec fn mounted_workspace(
    answer: Result<Seq<char>, ErrorView>,
    root: Seq<char>,
) -> Option<Seq<char>> {
    match answer {
        Ok(text) => match root_destination(lines_of(text), root, 0) {
            Some(dest) => Some(dest),
            None => workspace_destination(lines_of(text), 0),
        },
        Err(_) => None,
    }
}

/// The container-side path where the workspace is mounted, from what `docker
/// inspect` answered on the mounts. `None` if it gave no answer or no mount
/// matches the project.
pub fn workspace_mount_destination(answer: &Result<String, Error>, project_root: &str) -> (r:
    Option<String>)
    ensures
        r.deep_view() == mounted_workspace(seen(*answer), project_root@),
{
    match answer {
        Err(_) => None,
        Ok(text) => {
            let all = lines(text.as_str());
            let ghost list = all.deep_view();
            let mut fallback: Option<String> = None;
            let mut i: usize = 0;
            while i < all.len()
                invariant
                    list == all.deep_view(),
                    list == lines_of(text@),
                    seen(*answer) == Ok::<Seq<char>, ErrorView>(text@),
                    i <= all.len(),
                    root_destination(list, project_root@, 0) == root_destination(
                        list,
                        project_root@,
                        i as int,
                    ),
                    match fallback {
                        Some(dest) => workspace_destination(list, 0) == Some(dest@),
                        None => workspace_destination(list, 0) == workspace_destination(
                            list,
                            i as int,
                        ),
                    },
                decreases all.len() - i,
            {
                assert(list[i as int] == all@[i as int]@);
                let f = splitn(all[i], 2, '\t');
                proof {
                    assert(f.deep_view().len() > 0);
                    assert(f.deep_view()[0] == f@[0]@);
                }
                let source = trim(f[0]);
                if f.len() > 1 {
                    assert(f.deep_view()[1] == f@[1]@);
                    let dest = trim(f[1]);
                    if !dest.is_empty() {
                        if same(source, project_root) {
                            return Some(dest.to_owned());
                        }
                        if fallback.is_none() && starts_with(dest, "/workspaces/") {
                            fallback = Some(dest.to_owned());
                        }
                    }
                }
                i += 1;
            }
            fallback
        },
    }
}

// ---------------------------------------------------------------------------
// Commands
// ---------------------------------------------------------------------------

/// `docker exec <container> <argv...>`.
pub open spec fn exec_args(id: Seq<char>, argv: Seq<Seq<char>>) -> Seq<Seq<char>> {
    seq!["exec"@, id] + argv
}

/// `docker exec -i [-u user] [-w workdir] <container> <argv...>`.
pub open spec fn exec_command_args(
    id: Seq<char>,
    user: Option<Seq<char>>,
    workdir: Option<Seq<char>>,
    argv: Seq<Seq<char>>,
) -> Seq<Seq<char>> {
    seq!["exec"@, "-i"@] + match user {
        Some(u) => seq!["-u"@, u],
        None => seq![],
    } + match workdir {
        Some(w) => seq!["-w"@, w],
        None => seq![],
    } + seq![id] + argv
}

/// Append copies of the given texts.
pub fn add_args(r: &mut Vec<String>, list: &Vec<String>)
    ensures
        final(r).deep_view() == old(r).deep_view() + list.deep_view(),
{
    let ghost had = r.deep_view();
    let mut i: usize = 0;
    while i < list.len()
        invariant
            i <= list.len(),
            r.deep_view() == had + list.deep_view().take(i as int),
        decreases list.len() - i,
    {
        let ghost was = r.deep_view();
        r.push(list[i].clone());
        assert(r.deep_view() == was.push(list.deep_view()[i as int]));
        i += 1;
        assert(r.deep_view() == had + list.deep_view().take(i as int));
    }
    assert(list.deep_view().take(i as int) == list.deep_view());
}

/// Append a copy of a text.
pub fn add_arg(r: &mut Vec<String>, s: &str)
    ensures
        final(r).deep_view() == old(r).deep_view().push(s@),
{
    let ghost had = r.deep_view();
    r.push(s.to_owned());
    assert(r.deep_view() == had.push(s@));
}

/// The arguments that run a command in the container on this terminal.
pub fn exec_command(
    container: &Container,
    user: Option<&str>,
    workdir: Option<&str>,
    argv: &Vec<String>,
) -> (r: Vec<String>)
    ensures
        r.deep_view() == exec_command_args(
            container.id@,
            user.deep_view(),
            workdir.deep_view(),
            argv.deep_view(),
        ),
{
    let mut r = strings(&["exec", "-i"]);
    assert(r.deep_view() == seq!["exec"@, "-i"@]);
    if let Some(u) = user {
        add_arg(&mut r, "-u");
        add_arg(&mut r, u);
    }
    if let Some(w) = workdir {
        add_arg(&mut r, "-w");
        add_arg(&mut r, w);
    }
    add_arg(&mut r, container.id.as_str());
    add_args(&mut r, argv);
    assert(r.deep_view() == exec_command_args(
        container.id@,
        user.deep_view(),
        workdir.deep_view(),
        argv.deep_view(),
    ));
    r
}

/// The arguments that run a probe in the container for its output.
pub fn exec_capture(container: &Container, argv: &Vec<String>) -> (r: Vec<String>)
    ensures
        r.deep_view() == exec_args(container.id@, argv.deep_view()),
{
    let mut r = strings(&["exec", container.id.as_str()]);
    assert(r.deep_view() == seq!["exec"@, container.id@]);
    add_args(&mut r, argv);
    r
}

/// The arguments that run a probe in the container for its status only.
pub fn exec_status(container: &Container, argv: &Vec<String>) -> (r: Vec<String>)
    ensures
        r.deep_view() == exec_args(container.id@, argv.deep_view()),
{
    exec_capture(container, argv)
}

/// `docker rm -f <container>`.
pub open spec fn remove_args(id: Seq<char>) -> Seq<Seq<char>> {
    seq!["rm"@, "-f"@, id]
}

/// The arguments that force-remove a container.
pub fn remove(container: &Container) -> (r: Vec<String>)
    ensures
        r.deep_view() == remove_args(container.id@),
{
    let r = strings(&["rm", "-f", container.id.as_str()]);
    assert(r.deep_view() == remove_args(container.id@));
    r
}

/// `docker compose -p <project> down`.
pub open spec fn compose_down_args(project: Seq<char>) -> Seq<Seq<char>> {
    seq!["compose"@, "-p"@, project, "down"@]
}

/// The arguments that tear down an entire compose stack by project name.
/// Compose resolves the stack's containers and network from the label that
/// docker recorded, no compose file needed.
pub fn compose_down_project(project: &str) -> (r: Vec<String>)
    ensures
        r.deep_view() == compose_down_args(project@),
{
    let r = strings(&["compose", "-p", project, "down"]);
    assert(r.deep_view() == compose_down_args(project@));
    r
}

/// `docker stop <container>`.
pub open spec fn stop_args(id: Seq<char>) -> Seq<Seq<char>> {
    seq!["stop"@, id]
}

/// The arguments that stop a container without removing it.
pub fn exec_stop(container: &Container) -> (r: Vec<String>)
    ensures
        r.deep_view() == stop_args(container.id@),
{
    let r = strings(&["stop", container.id.as_str()]);
    assert(r.deep_view() == stop_args(container.id@));
    r
}

/// Does this project resolve to a compose stack or a single image?
pub fn describe_kind(dc: &Devcontainer) -> (r: &'static str)
    ensures
        r@ == if compose_based(dc.deep_view()) {
            "compose stack"@
        } else {
            "container"@
        },
{
    if dc.is_compose() {
        "compose stack"
    } else {
        "container"
    }
}

// ---------------------------------------------------------------------------
// The run-once marker
// ---------------------------------------------------------------------------

/// The signal of the marker that is being looked for.
#[derive(Debug, Clone, Copy, PartialEq, Eq)]
pub enum MarkerState {
    /// The label on containers that devcon created.
    Label,
    /// The file inside the container.
    Sentinel,
}

/// Where the look for the marker stands.
#[derive(Debug)]
pub enum MarkerStep {
    Wait(Request, MarkerState),
    Done(bool),
}

/// A [`MarkerStep`] as plain values.
#[verifier::ext_equal]
pub enum MarkerStepView {
    Wait(RequestView, MarkerState),
    Done(bool),
}

impl DeepView for MarkerStep {
    type V = MarkerStepView;

    open spec fn deep_view(&self) -> MarkerStepView {
        match self {
            MarkerStep::Wait(q, s) => MarkerStepView::Wait(q.deep_view(), *s),
            MarkerStep::Done(b) => MarkerStepView::Done(*b),
        }
    }
}

/// What `docker inspect` is asked for the marker label.
pub open spec fn marker_label_args(id: Seq<char>) -> Seq<Seq<char>> {
    inspect_args("{{index .Config.Labels \""@ + MARKER_LABEL@ + "\"}}"@, id)
}

/// What a look for the marker waits for.
pub open spec fn marker_request(id: Seq<char>, at: MarkerState) -> RequestView {
    match at {
        MarkerState::Label => RequestView::Capture(marker_label_args(id)),
        MarkerState::Sentinel => RequestView::Run {
            args: exec_args(id, seq!["test"@, "-f"@, MARKER_SENTINEL@]),
            dir: None,
        },
    }
}

/// The look for the marker goes on with the answer it waited for.
pub open spec fn marker_next(id: Seq<char>, at: MarkerState, reply: ReplyView) -> MarkerStepView {
    match at {
        MarkerState::Label => if stated_label(
            captured_text(marker_label_args(id), reply->Ran_0),
        ) is Some {
            MarkerStepView::Done(true)
        } else {
            MarkerStepView::Wait(marker_request(id, MarkerState::Sentinel), MarkerState::Sentinel)
        },
        MarkerState::Sentinel => MarkerStepView::Done(
            status_of(reply->Ran_0) == Ok::<bool, ErrorView>(true),
        ),
    }
}

/// What `docker inspect` is asked for the marker label.
fn marker_label(container: &Container) -> (r: Vec<String>)
    ensures
        r.deep_view() == marker_label_args(container.id@),
{
    let mut template: String = "{{index .Config.Labels \"".to_owned();
    template.append(MARKER_LABEL);
    template.append("\"}}");
    inspect(template.as_str(), container.id.as_str())
}

/// Has postCreate already run for this container? Two signals say so: the
/// [`MARKER_LABEL`] on containers `devcon` created, and the
/// [`MARKER_SENTINEL`] inside the container. The label is looked for first.
pub fn has_marker(container: &Container) -> (r: MarkerStep)
    ensures
        r.deep_view() == MarkerStepView::Wait(
            marker_request(container.id@, MarkerState::Label),
            MarkerState::Label,
        ),
{
    MarkerStep::Wait(Request::Capture(marker_label(container)), MarkerState::Label)
}

/// The look for the [`MARKER_SENTINEL`] alone, in a container whose label was
/// stamped just now, as it was made.
pub fn has_marker_file(container: &Container) -> (r: MarkerStep)
    ensures
        r.deep_view() == MarkerStepView::Wait(
            marker_request(container.id@, MarkerState::Sentinel),
            MarkerState::Sentinel,
        ),
{
    let argv = strings(&["test", "-f", MARKER_SENTINEL]);
    assert(argv.deep_view() == seq!["test"@, "-f"@, MARKER_SENTINEL@]);
    let args = exec_status(container, &argv);
    MarkerStep::Wait(Request::Run { args, dir: None }, MarkerState::Sentinel)
}

/// Go on with the look for the marker, with the answer it waited for.
pub fn has_marker_on(container: &Container, at: MarkerState, reply: Reply) -> (r: MarkerStep)
    requires
        answers(reply.deep_view(), marker_request(container.id@, at)),
    ensures
        r.deep_view() == marker_next(container.id@, at, reply.deep_view()),
{
    match reply {
        Reply::Ran(outcome) => match at {
            MarkerState::Label => {
                let answer = run_docker_text(&marker_label(container), outcome);
                if label_answer(&answer).is_some() {
                    return MarkerStep::Done(true);
                }
                has_marker_file(container)
            },
            MarkerState::Sentinel => match super::run_status(outcome) {
                Ok(success) => MarkerStep::Done(success),
                Err(_) => MarkerStep::Done(false),
            },
        },
        _ => MarkerStep::Done(false),
    }
}

// ---------------------------------------------------------------------------
// The user
// ---------------------------------------------------------------------------

/// What is run to see whether a user resolves inside the container.
pub open spec fn user_args(id: Seq<char>, user: Seq<char>) -> Seq<Seq<char>> {
    exec_args(id, seq!["id"@, user])
}

/// The arguments that tell whether `user` (name or numeric uid) resolves
/// inside the container.
pub fn user_exists_args(container: &Container, user: &str) -> (r: Vec<String>)
    ensures
        r.deep_view() == user_args(container.id@, user@),
{
    let argv = strings(&["id", user]);
    assert(argv.deep_view() == seq!["id"@, user@]);
    exec_capture(container, &argv)
}

/// A user resolves inside the container if looking it up exits well.
pub open spec fn user_found(outcome: OutcomeView) -> bool {
    status_of(outcome) == Ok::<bool, ErrorView>(true)
}

/// True if the look-up of a user inside the container went well.
pub fn user_exists(outcome: &Outcome) -> (r: bool)
    ensures
        r == user_found(outcome.deep_view()),
{
    match outcome {
        Outcome::Exited { success, .. } => *success,
        _ => false,
    }
}

/// The warning that a declared user is not there.
pub open spec fn user_warning(user: Seq<char>) -> Seq<char> {
    "\x1b[33mdevcon:\x1b[0m remoteUser '"@ + user
        + "' not found in container — using the image's default user instead"@
}

/// Resolve which user to `docker exec -u` as, given how the look-up of the
/// declared `remoteUser` ended: that user only if it exists in the container's
/// passwd database; otherwise `None` (exec as the image's default user), with
/// a warning.
pub fn resolve_user(declared: &str, lookup: &Outcome) -> (r: Result<String, String>)
    ensures
        match r {
            Ok(user) => user_found(lookup.deep_view()) && user@ == declared@,
            Err(warning) => !user_found(lookup.deep_view()) && warning@ == user_warning(declared@),
        },
{
    if user_exists(lookup) {
        Ok(declared.to_owned())
    } else {
        let mut warning: String = "\x1b[33mdevcon:\x1b[0m remoteUser '".to_owned();
        warning.append(declared);
        warning.append("' not found in container — using the image's default user instead");
        Err(warning)
    }
}

// ---------------------------------------------------------------------------
// Laws
// ---------------------------------------------------------------------------

/// A line tells of a mount: what stands before its first tab is the source,
/// what stands behind it the destination.
pub open spec fn tells_mount(line: Seq<char>, source: Seq<char>, destination: Seq<char>) -> bool {
    exists|a: Seq<char>, b: Seq<char>| #[trigger]
        cut_at(line, '\t', a, b) && source == trimmed(a) && destination == trimmed(b)
}

/// A line of two fields has its source and its destination told apart.
proof fn lemma_tells_mount(line: Seq<char>, source: Seq<char>, destination: Seq<char>)
    ensures
        tells_mount(line, source, destination) ==> source == mount_source(line) && destination
            == mount_destination(line),
        mount_destination(line).len() > 0 ==> tells_mount(
            line,
            mount_source(line),
            mount_destination(line),
        ),
{
    lemma_index_cuts(line, '\t');
    let n = index_of(line, '\t') as int;
    if n < line.len() {
        let x = line.take(n);
        let y = line.skip(n + 1);
        law_first_pieces(line, '\t', x, y, 2);
        law_first_pieces(y, '\t', x, y, 1);
        assert(first_pieces(line, '\t', 2) == seq![x, y]);
        assert(cut_at(line, '\t', x, y));
        if tells_mount(line, source, destination) {
            let (a, b) = choose|a: Seq<char>, b: Seq<char>| #[trigger]
                cut_at(line, '\t', a, b) && source == trimmed(a) && destination == trimmed(b);
            lemma_cut_at(line, '\t', a, b);
        }
    } else {
        assert(first_pieces(line, '\t', 2).len() == 1);
        if tells_mount(line, source, destination) {
            let (a, b) = choose|a: Seq<char>, b: Seq<char>| #[trigger]
                cut_at(line, '\t', a, b) && source == trimmed(a) && destination == trimmed(b);
            lemma_cut_at(line, '\t', a, b);
        }
    }
}

/// The first of the lines that bind the root decides.
proof fn lemma_root_destination(list: Seq<Seq<char>>, root: Seq<char>, i: int)
    requires
        0 <= i <= list.len(),
    ensures
        match root_destination(list, root, i) {
            Some(d) => exists|k: int|
                i <= k < list.len() && #[trigger] binds_root(list[k], root) && d
                    == mount_destination(list[k]) && forall|j: int|
                    i <= j < k ==> !binds_root(#[trigger] list[j], root),
            None => forall|j: int| i <= j < list.len() ==> !binds_root(#[trigger] list[j], root),
        },
    decreases list.len() - i,
{
    if i < list.len() {
        if binds_root(list[i], root) {
            assert(binds_root(list[i], root));
        } else {
            lemma_root_destination(list, root, i + 1);
        }
    }
}

/// The first of the lines that go to `/workspaces/` decides.
proof fn lemma_workspace_destination(list: Seq<Seq<char>>, i: int)
    requires
        0 <= i <= list.len(),
    ensures
        match workspace_destination(list, i) {
            Some(d) => exists|k: int|
                i <= k < list.len() && #[trigger] binds_workspace(list[k]) && d
                    == mount_destination(list[k]) && forall|j: int|
                    i <= j < k ==> !binds_workspace(#[trigger] list[j]),
            None => forall|j: int| i <= j < list.len() ==> !binds_workspace(#[trigger] list[j]),
        },
    decreases list.len() - i,
{
    if i < list.len() {
        if binds_workspace(list[i]) {
            assert(binds_workspace(list[i]));
        } else {
            lemma_workspace_destination(list, i + 1);
        }
    }
}

/// The workspace is where the project root is bound: the first mount whose
/// source is the root, character for character, and that has a destination.
pub proof fn law_bound_root_is_the_workspace(
    text: Seq<char>,
    root: Seq<char>,
    k: int,
    destination: Seq<char>,
)
    requires
        0 <= k < lines_of(text).len(),
        tells_mount(lines_of(text)[k], root, destination),
        destination.len() > 0,
        forall|j: int, other: Seq<char>|
            0 <= j < k && #[trigger] tells_mount(lines_of(text)[j], root, other) ==> other.len()
                == 0,
    ensures
        mounted_workspace(Ok(text), root) == Some(destination),
{
    let list = lines_of(text);
    lemma_root_destination(list, root, 0);
    lemma_tells_mount(list[k], root, destination);
    assert(binds_root(list[k], root));
    let n = choose|n: int|
        0 <= n < list.len() && #[trigger] binds_root(list[n], root) && root_destination(
            list,
            root,
            0,
        ) == Some(mount_destination(list[n])) && forall|j: int|
            0 <= j < n ==> !binds_root(#[trigger] list[j], root);
    lemma_tells_mount(list[n], root, mount_destination(list[n]));
    if n < k {
        assert(tells_mount(lines_of(text)[n], root, mount_destination(list[n])));
    }
    assert(n == k);
}

/// A line tells of a mount from the root.
pub open spec fn mounts_from(line: Seq<char>, root: Seq<char>) -> bool {
    exists|d: Seq<char>| d.len() > 0 && #[trigger] tells_mount(line, root, d)
}

/// A line tells of a mount to somewhere in `/workspaces/`.
pub open spec fn mounts_into_workspaces(line: Seq<char>) -> bool {
    exists|s: Seq<char>, d: Seq<char>| #[trigger]
        tells_mount(line, s, d) && "/workspaces/"@.is_prefix_of(d)
}

proof fn lemma_mount_kinds(line: Seq<char>, root: Seq<char>)
    ensures
        mounts_from(line, root) == binds_root(line, root),
        mounts_into_workspaces(line) == binds_workspace(line),
{
    reveal_strlit("/workspaces/");
    lemma_tells_mount(line, mount_source(line), mount_destination(line));
    if mounts_from(line, root) {
        let d = choose|d: Seq<char>| d.len() > 0 && #[trigger] tells_mount(line, root, d);
        lemma_tells_mount(line, root, d);
    }
    if mounts_into_workspaces(line) {
        let (s, d) = choose|s: Seq<char>, d: Seq<char>| #[trigger]
            tells_mount(line, s, d) && "/workspaces/"@.is_prefix_of(d);
        lemma_tells_mount(line, s, d);
    }
}

/// What is taken as the workspace is the destination of a mount. A mount whose
/// source is not the project root is taken only where no mount has it, and
/// then it is the first one into `/workspaces/`. Nothing is taken only where
/// there is no mount of either kind.
pub proof fn law_workspace_is_a_mount(text: Seq<char>, root: Seq<char>)
    ensures
        match mounted_workspace(Ok(text), root) {
            Some(d) => exists|k: int, source: Seq<char>|
                0 <= k < lines_of(text).len() && #[trigger] tells_mount(
                    lines_of(text)[k],
                    source,
                    d,
                ) && d.len() > 0 && (source == root || ("/workspaces/"@.is_prefix_of(d) && (forall|
                    j: int,
                |
                    0 <= j < lines_of(text).len() ==> !mounts_from(
                        #[trigger] lines_of(text)[j],
                        root,
                    )) && (forall|j: int|
                    0 <= j < k ==> !mounts_into_workspaces(#[trigger] lines_of(text)[j])))),
            None => forall|j: int|
                0 <= j < lines_of(text).len() ==> !mounts_from(#[trigger] lines_of(text)[j], root)
                    && !mounts_into_workspaces(lines_of(text)[j]),
        },
        forall|e: ErrorView| (#[trigger] mounted_workspace(Err(e), root)) is None,
{
    let list = lines_of(text);
    lemma_root_destination(list, root, 0);
    lemma_workspace_destination(list, 0);
    assert forall|j: int| 0 <= j < list.len() implies mounts_from(#[trigger] list[j], root)
        == binds_root(list[j], root) && mounts_into_workspaces(list[j]) == binds_workspace(
        list[j],
    ) by {
        lemma_mount_kinds(list[j], root);
    }
    if root_destination(list, root, 0) is Some {
        let d = root_destination(list, root, 0)->Some_0;
        let k = choose|k: int|
            0 <= k < list.len() && #[trigger] binds_root(list[k], root) && d == mount_destination(
                list[k],
            );
        lemma_tells_mount(list[k], root, d);
        assert(tells_mount(lines_of(text)[k], root, d));
    } else if workspace_destination(list, 0) is Some {
        let d = workspace_destination(list, 0)->Some_0;
        let k = choose|k: int|
            0 <= k < list.len() && #[trigger] binds_workspace(list[k]) && d == mount_destination(
                list[k],
            ) && forall|j: int| 0 <= j < k ==> !binds_workspace(#[trigger] list[j]);
        lemma_tells_mount(list[k], mount_source(list[k]), d);
        assert(tells_mount(lines_of(text)[k], mount_source(list[k]), d));
    }
}

/// What runs in the container does so by `docker exec`: as the user that is
/// given and in the directory that is given, each with its flag before the
/// container; and the command stands behind the container, word by word.
pub proof fn law_exec_command_line(
    id: Seq<char>,
    user: Option<Seq<char>>,
    workdir: Option<Seq<char>>,
    argv: Seq<Seq<char>>,
)
    ensures
        ({
            let args = exec_command_args(id, user, workdir, argv);
            let u: int = if user is Some {
                2
            } else {
                0
            };
            let w: int = if workdir is Some {
                2
            } else {
                0
            };
            &&& args.len() == 3 + u + w + argv.len()
            &&& args[0] == "exec"@ && args[1] == "-i"@
            &&& user matches Some(name) ==> args[2] == "-u"@ && args[3] == name
            &&& workdir matches Some(dir) ==> args[2 + u] == "-w"@ && args[3 + u] == dir
            &&& args[2 + u + w] == id
            &&& forall|i: int| 0 <= i < argv.len() ==> args[3 + u + w + i] == #[trigger] argv[i]
        }),
        ({
            let args = exec_args(id, argv);
            &&& args.len() == 2 + argv.len()
            &&& args[0] == "exec"@ && args[1] == id
            &&& forall|i: int| 0 <= i < argv.len() ==> args[2 + i] == #[trigger] argv[i]
        }),
{
}

/// What is run on a container names that container: each question about it
/// and each thing done to it.
pub proof fn law_container_is_named(id: Seq<char>, user: Seq<char>)
    ensures
        created_args(id).last() == id && created_args(id)[0] == "inspect"@,
        started_args(id).last() == id && started_args(id)[0] == "inspect"@,
        project_args(id).last() == id && project_args(id)[0] == "inspect"@,
        running_args(id).last() == id && running_args(id)[0] == "inspect"@,
        mounts_args(id).last() == id && mounts_args(id)[0] == "inspect"@,
        marker_label_args(id).last() == id && marker_label_args(id)[0] == "inspect"@,
        created_args(id)[2] == "{{.Created}}"@,
        started_args(id)[2] == "{{.State.StartedAt}}"@,
        running_args(id)[2] == "{{.State.Running}}"@,
        mounts_args(id)[2] == "{{range .Mounts}}{{.Source}}\t{{.Destination}}\n{{end}}"@,
        project_args(id)[2] == "{{index .Config.Labels \"com.docker.compose.project\"}}"@,
        remove_args(id) == seq!["rm"@, "-f"@, id],
        stop_args(id) == seq!["stop"@, id],
        user_args(id, user) == seq!["exec"@, id, "id"@, user],
{
    assert(user_args(id, user) == seq!["exec"@, id, "id"@, user]);
}

/// What docker states is the trimmed answer; a blank one, a failed one and,
/// of a label, `<no value>` state nothing.
pub proof fn law_stated(text: Seq<char>, e: ErrorView)
    ensures
        stated(Ok(text)) == if trimmed(text).len() > 0 {
            Some(trimmed(text))
        } else {
            None
        },
        stated(Err(e)) is None,
        stated_label(Err(e)) is None,
        stated_label(Ok(text)) is Some <==> trimmed(text).len() > 0 && trimmed(text) != "<no value>"@,
        stated_label(Ok(text)) is Some ==> stated_label(Ok(text)) == Some(trimmed(text)),
{
}

/// A marker is there if its label has a value, or else if its file is there;
/// what is looked for in the container is the file of the marker.
pub proof fn law_marker_has_two_signals(id: Seq<char>, label: ReplyView, file: ReplyView)
    ensures
        marker_request(id, MarkerState::Sentinel) == (RequestView::Run {
            args: seq!["exec"@, id, "test"@, "-f"@, MARKER_SENTINEL@],
            dir: None,
        }),
        marker_next(id, MarkerState::Label, label) == MarkerStepView::Done(true) || marker_next(
            id,
            MarkerState::Label,
            label,
        ) == MarkerStepView::Wait(
            marker_request(id, MarkerState::Sentinel),
            MarkerState::Sentinel,
        ),
        label->Ran_0 matches OutcomeView::Exited { success: true, stdout, .. } ==> (marker_next(
            id,
            MarkerState::Label,
            label,
        ) == MarkerStepView::Done(true) <==> trimmed(crate::request::utf8_lossy(stdout)).len() > 0
            && trimmed(crate::request::utf8_lossy(stdout)) != "<no value>"@),
        !(label->Ran_0 matches OutcomeView::Exited { success: true, .. }) ==> marker_next(
            id,
            MarkerState::Label,
            label,
        ) is Wait,
        marker_next(id, MarkerState::Sentinel, file) == MarkerStepView::Done(
            file->Ran_0 matches OutcomeView::Exited { success: true, .. },
        ),
{
    assert(marker_request(id, MarkerState::Sentinel) == (RequestView::Run {
        args: seq!["exec"@, id, "test"@, "-f"@, MARKER_SENTINEL@],
        dir: None,
    })) by {
        assert(exec_args(id, seq!["test"@, "-f"@, MARKER_SENTINEL@]) == seq![
            "exec"@,
            id,
            "test"@,
            "-f"@,
            MARKER_SENTINEL@,
        ]);
    }
}

/// A user is there if docker could look it up, and in no other case.
pub proof fn law_user_found(outcome: OutcomeView)
    ensures
        user_found(outcome) <==> outcome matches OutcomeView::Exited { success: true, .. },
{
}

} // verus!

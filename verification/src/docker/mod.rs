//! All that `devcon` has to say to the `docker` CLI, and what it makes of the
//! answers.

pub mod compose_file;
pub mod container;
pub mod find;
pub mod projects;

use crate::request::{strings, text_of, utf8_lossy, Outcome, OutcomeView};
use crate::text::{lemma_occurs_inside, occurs};
use vstd::prelude::*;

verus! {

/// The label `devcon` stamps on containers *it creates* (image-based) at
/// `docker run` time, recording that postCreate ran.
pub const MARKER_LABEL: &'static str = "dev.devcon.postcreate";

/// Portable run-once sentinel written *inside* the container.
pub const MARKER_SENTINEL: &'static str = "/tmp/.devcon-postcreate-done";

/// A running container matched to a project.
#[derive(Debug, Clone)]
pub struct Container {
    pub id: String,
    pub name: String,
}

/// A [`Container`] as plain values.
#[verifier::ext_equal]
pub struct ContainerView {
    pub id: Seq<char>,
    pub name: Seq<char>,
}

impl DeepView for Container {
    type V = ContainerView;

    open spec fn deep_view(&self) -> ContainerView {
        ContainerView { id: self.id@, name: self.name@ }
    }
}

/// Why `docker` gave no answer.
#[derive(Debug, Clone)]
pub enum Error {
    DockerNotFound,
    /// The subcommand that failed, and what it printed.
    CommandFailed(String, String),
    Io(String),
}

/// An [`Error`] as plain values.
#[verifier::ext_equal]
pub enum ErrorView {
    DockerNotFound,
    CommandFailed(Seq<char>, Seq<char>),
    Io(Seq<char>),
}

impl DeepView for Error {
    type V = ErrorView;

    open spec fn deep_view(&self) -> ErrorView {
        match self {
            Error::DockerNotFound => ErrorView::DockerNotFound,
            Error::CommandFailed(cmd, msg) => ErrorView::CommandFailed(cmd@, msg@),
            Error::Io(why) => ErrorView::Io(why@),
        }
    }
}

/// A docker error in words.
pub open spec fn error_text(e: ErrorView) -> Seq<char> {
    match e {
        ErrorView::DockerNotFound =>
            "docker not found — install Docker and make sure it is on your PATH"@,
        ErrorView::CommandFailed(cmd, msg) => "docker "@ + cmd + " failed: "@ + msg,
        ErrorView::Io(why) => "i/o error running docker: "@ + why,
    }
}

impl Error {
    /// The error in words.
    pub fn message(&self) -> (r: String)
        ensures
            r@ == error_text(self.deep_view()),
    {
        match self {
            Error::DockerNotFound => {
                "docker not found — install Docker and make sure it is on your PATH".to_owned()
            },
            Error::CommandFailed(cmd, msg) => {
                let mut r: String = "docker ".to_owned();
                r.append(cmd.as_str());
                r.append(" failed: ");
                r.append(msg.as_str());
                r
            },
            Error::Io(why) => {
                let mut r: String = "i/o error running docker: ".to_owned();
                r.append(why.as_str());
                r
            },
        }
    }
}

// ---------------------------------------------------------------------------
// Running docker
// ---------------------------------------------------------------------------

/// What capturing the output of `docker` with `args` comes to.
pub open spec fn captured(args: Seq<Seq<char>>, outcome: OutcomeView) -> Result<Seq<u8>, ErrorView> {
    match outcome {
        OutcomeView::Missing => Err(ErrorView::DockerNotFound),
        OutcomeView::Failed(why) => Err(ErrorView::Io(why)),
        OutcomeView::Exited { success: true, stdout, .. } => Ok(stdout),
        OutcomeView::Exited { success: false, stderr, .. } => Err(
            ErrorView::CommandFailed(
                if args.len() > 0 {
                    args[0]
                } else {
                    seq![]
                },
                utf8_lossy(stderr),
            ),
        ),
    }
}

/// The text that capturing the output of `docker` with `args` gives.
pub open spec fn captured_text(args: Seq<Seq<char>>, outcome: OutcomeView) -> Result<
    Seq<char>,
    ErrorView,
> {
    match captured(args, outcome) {
        Ok(bytes) => Ok(utf8_lossy(bytes)),
        Err(e) => Err(e),
    }
}

/// Whether running `docker` for its status went well.
pub open spec fn status_of(outcome: OutcomeView) -> Result<bool, ErrorView> {
    match outcome {
        OutcomeView::Missing => Err(ErrorView::DockerNotFound),
        OutcomeView::Failed(why) => Err(ErrorView::Io(why)),
        OutcomeView::Exited { success, .. } => Ok(success),
    }
}

/// The error of a program that could not be run: `docker` is not there, or
/// something else is wrong.
pub fn map_spawn_err(not_found: bool, why: String) -> (r: Error)
    ensures
        r == if not_found {
            Error::DockerNotFound
        } else {
            Error::Io(why)
        },
{
    if not_found {
        Error::DockerNotFound
    } else {
        Error::Io(why)
    }
}

/// The standard output of a docker subcommand. Errors on non-zero exit.
pub fn run_docker(args: &Vec<String>, outcome: Outcome) -> (r: Result<Vec<u8>, Error>)
    ensures
        match captured(args.deep_view(), outcome.deep_view()) {
            Ok(bytes) => r matches Ok(out) && out@ == bytes,
            Err(e) => r matches Err(err) && err.deep_view() == e,
        },
{
    match outcome {
        Outcome::Missing => Err(map_spawn_err(true, String::new())),
        Outcome::Failed(why) => Err(map_spawn_err(false, why)),
        Outcome::Exited { success, stdout, stderr } => {
            if success {
                return Ok(stdout);
            }
            let cmd = if args.len() > 0 {
                assert(args.deep_view()[0] == args@[0]@);
                args[0].clone()
            } else {
                String::new()
            };
            Err(Error::CommandFailed(cmd, text_of(&stderr)))
        },
    }
}

/// The standard output of a docker subcommand as text. Errors on non-zero
/// exit.
pub fn run_docker_text(args: &Vec<String>, outcome: Outcome) -> (r: Result<String, Error>)
    ensures
        crate::request::seen(r) == captured_text(args.deep_view(), outcome.deep_view()),
{
    match run_docker(args, outcome) {
        Ok(bytes) => Ok(text_of(&bytes)),
        Err(e) => Err(e),
    }
}

/// Whether a docker subcommand exited well.
pub fn run_status(outcome: Outcome) -> (r: Result<bool, Error>)
    ensures
        match status_of(outcome.deep_view()) {
            Ok(success) => r == Ok::<bool, Error>(success),
            Err(e) => r matches Err(err) && err.deep_view() == e,
        },
{
    match outcome {
        Outcome::Missing => Err(map_spawn_err(true, String::new())),
        Outcome::Failed(why) => Err(map_spawn_err(false, why)),
        Outcome::Exited { success, .. } => Ok(success),
    }
}

/// `docker inspect -f <template> <container>`.
pub open spec fn inspect_args(template: Seq<char>, id: Seq<char>) -> Seq<Seq<char>> {
    seq!["inspect"@, "-f"@, template, id]
}

/// `docker inspect -f <template> <container>`.
pub fn inspect(template: &str, id: &str) -> (r: Vec<String>)
    ensures
        r.deep_view() == inspect_args(template@, id@),
{
    let r = strings(&["inspect", "-f", template, id]);
    assert(r.deep_view() == inspect_args(template@, id@));
    r
}

// ---------------------------------------------------------------------------
// Laws
// ---------------------------------------------------------------------------

/// What docker prints counts only if it exited well. A docker that is not
/// there, one that cannot be run, and one that exits badly are errors, each of
/// its own; the last names the subcommand and says what docker said.
pub proof fn law_docker_outcomes(
    args: Seq<Seq<char>>,
    stdout: Seq<u8>,
    stderr: Seq<u8>,
    why: Seq<char>,
)
    requires
        args.len() > 0,
    ensures
        captured_text(args, OutcomeView::Exited { success: true, stdout, stderr }) == Ok::<
            Seq<char>,
            ErrorView,
        >(utf8_lossy(stdout)),
        captured(args, OutcomeView::Exited { success: true, stdout, stderr }) == Ok::<
            Seq<u8>,
            ErrorView,
        >(stdout),
        captured(args, OutcomeView::Exited { success: false, stdout, stderr }) == Err::<
            Seq<u8>,
            ErrorView,
        >(ErrorView::CommandFailed(args[0], utf8_lossy(stderr))),
        captured(args, OutcomeView::Missing) == Err::<Seq<u8>, ErrorView>(
            ErrorView::DockerNotFound,
        ),
        captured(args, OutcomeView::Failed(why)) == Err::<Seq<u8>, ErrorView>(ErrorView::Io(why)),
        status_of(OutcomeView::Exited { success: true, stdout, stderr }) == Ok::<bool, ErrorView>(
            true,
        ),
        status_of(OutcomeView::Exited { success: false, stdout, stderr }) == Ok::<bool, ErrorView>(
            false,
        ),
        status_of(OutcomeView::Missing) is Err,
        status_of(OutcomeView::Failed(why)) is Err,
{
}

/// An error of docker says what was run and what docker said of it.
pub proof fn law_error_says_why(cmd: Seq<char>, msg: Seq<char>)
    ensures
        occurs(error_text(ErrorView::CommandFailed(cmd, msg)), cmd),
        occurs(error_text(ErrorView::CommandFailed(cmd, msg)), msg),
        occurs(error_text(ErrorView::Io(msg)), msg),
{
    let none = Seq::<char>::empty();
    let front = "docker "@ + cmd + " failed: "@;
    lemma_occurs_inside("docker "@, cmd, " failed: "@ + msg, cmd);
    assert("docker "@ + cmd + (" failed: "@ + msg) == front + msg);
    lemma_occurs_inside(front, msg, none, msg);
    assert(front + msg + none == front + msg);
    let io = "i/o error running docker: "@;
    lemma_occurs_inside(io, msg, none, msg);
    assert(io + msg + none == io + msg);
}

} // verus!

//! Dev-container lifecycle: bring the stack up when it is down, then run the
//! declared `postCreateCommand` once per container and the `postStartCommand`
//! once per start.

pub mod drift;
pub mod hooks;
pub mod laws;
pub mod stack;
pub mod up;

use crate::docker;
use crate::request::{Outcome, OutcomeView};
use vstd::prelude::*;

verus! {

/// How the caller wants rebuild-on-drift handled.
#[derive(Debug, Clone, Copy, PartialEq, Eq, Structural)]
pub enum Rebuild {
    /// Detect drift (a stack file edited since the container was built) and
    /// prompt before recreating. This is the default.
    Auto,
    /// Always recreate the container, regardless of drift (`--rebuild`).
    Force,
    /// Never recreate; connect to whatever is running (`--no-rebuild`).
    Never,
}

/// How far `devcon down` tears the stack down.
#[derive(Debug, Clone, Copy, PartialEq, Eq, Structural)]
pub enum TearDown {
    /// Remove the container(s) (and, for compose, the network): `compose down`
    /// / `docker rm -f`.
    Remove,
    /// Stop but keep the container(s): `compose stop` / `docker stop`. A later
    /// `devcon` reconnects to the same container without recreating it.
    Stop,
}

impl Rebuild {
    /// What `--rebuild` and `--no-rebuild` ask for.
    pub fn from_flags(rebuild: bool, no_rebuild: bool) -> (r: Self)
        ensures
            r == if rebuild {
                Rebuild::Force
            } else if no_rebuild {
                Rebuild::Never
            } else {
                Rebuild::Auto
            },
    {
        if rebuild {
            Rebuild::Force
        } else if no_rebuild {
            Rebuild::Never
        } else {
            Rebuild::Auto
        }
    }
}

impl TearDown {
    /// What `--stop` asks for.
    pub fn from_flag(stop: bool) -> (r: Self)
        ensures
            r == if stop {
                TearDown::Stop
            } else {
                TearDown::Remove
            },
    {
        if stop {
            TearDown::Stop
        } else {
            TearDown::Remove
        }
    }
}

#[derive(Debug)]
pub enum Error {
    Docker(docker::Error),
    BringUpFailed(String),
    BringDownFailed(String),
    /// Nothing is running after a bring-up. The optional text is a specific
    /// diagnosis; without one a generic message is given.
    NotUpAfterStart(Option<String>),
    /// (hook name, the command that failed)
    LifecycleFailed(&'static str, String),
    Io(String),
}

/// An [`Error`] as plain values.
#[verifier::ext_equal]
pub enum ErrorView {
    Docker(docker::ErrorView),
    BringUpFailed(Seq<char>),
    BringDownFailed(Seq<char>),
    NotUpAfterStart(Option<Seq<char>>),
    LifecycleFailed(Seq<char>, Seq<char>),
    Io(Seq<char>),
}

impl DeepView for Error {
    type V = ErrorView;

    open spec fn deep_view(&self) -> ErrorView {
        match self {
            Error::Docker(e) => ErrorView::Docker(e.deep_view()),
            Error::BringUpFailed(msg) => ErrorView::BringUpFailed(msg@),
            Error::BringDownFailed(msg) => ErrorView::BringDownFailed(msg@),
            Error::NotUpAfterStart(detail) => ErrorView::NotUpAfterStart(detail.deep_view()),
            Error::LifecycleFailed(hook, cmd) => ErrorView::LifecycleFailed(hook@, cmd@),
            Error::Io(why) => ErrorView::Io(why@),
        }
    }
}

/// A lifecycle error in words.
pub open spec fn error_text(e: ErrorView) -> Seq<char> {
    match e {
        ErrorView::Docker(e) => docker::error_text(e),
        ErrorView::BringUpFailed(msg) => "failed to start the dev container: "@ + msg,
        ErrorView::BringDownFailed(msg) => "failed to stop the dev container: "@ + msg,
        ErrorView::NotUpAfterStart(Some(detail)) => detail,
        ErrorView::NotUpAfterStart(None) =>
            "started the stack but no matching container is running — check `docker ps`"@,
        ErrorView::LifecycleFailed(hook, cmd) => hook + " failed: "@ + cmd,
        ErrorView::Io(why) => "i/o error: "@ + why,
    }
}

impl Error {
    /// The error in words.
    pub fn message(&self) -> (r: String)
        ensures
            r@ == error_text(self.deep_view()),
    {
        match self {
            Error::Docker(e) => e.message(),
            Error::BringUpFailed(msg) => {
                let mut r: String = "failed to start the dev container: ".to_owned();
                r.append(msg.as_str());
                r
            },
            Error::BringDownFailed(msg) => {
                let mut r: String = "failed to stop the dev container: ".to_owned();
                r.append(msg.as_str());
                r
            },
            Error::NotUpAfterStart(Some(detail)) => detail.clone(),
            Error::NotUpAfterStart(None) => {
                "started the stack but no matching container is running — check `docker ps`".to_owned()
            },
            Error::LifecycleFailed(hook, cmd) => {
                let name: &str = hook;
                let mut r: String = name.to_owned();
                r.append(" failed: ");
                r.append(cmd.as_str());
                r
            },
            Error::Io(why) => {
                let mut r: String = "i/o error: ".to_owned();
                r.append(why.as_str());
                r
            },
        }
    }
}

/// Whether a program that was run on this terminal exited well; or the error
/// of one that could not be run.
pub open spec fn ran(outcome: OutcomeView) -> Result<bool, ErrorView> {
    match outcome {
        OutcomeView::Missing => Err(ErrorView::Docker(docker::ErrorView::DockerNotFound)),
        OutcomeView::Failed(why) => Err(ErrorView::Io(why)),
        OutcomeView::Exited { success, .. } => Ok(success),
    }
}

/// The error of a program that could not be run: `docker` is not there, or
/// something else is wrong.
pub fn map_spawn_err(not_found: bool, why: String) -> (r: Error)
    ensures
        r == if not_found {
            Error::Docker(docker::Error::DockerNotFound)
        } else {
            Error::Io(why)
        },
{
    if not_found {
        Error::Docker(docker::Error::DockerNotFound)
    } else {
        Error::Io(why)
    }
}

/// Whether a program that was run on this terminal exited well.
pub fn exited_well(outcome: Outcome) -> (r: Result<bool, Error>)
    ensures
        crate::request::seen(r) == ran(outcome.deep_view()),
{
    match outcome {
        Outcome::Missing => Err(map_spawn_err(true, String::new())),
        Outcome::Failed(why) => Err(map_spawn_err(false, why)),
        Outcome::Exited { success, .. } => Ok(success),
    }
}

} // verus!

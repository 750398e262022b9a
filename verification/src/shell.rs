//! Resolve which shell to drop the user into.
//!
//! Precedence:
//!   1. `--shell` flag
//!   2. `.devcontainer/devcon.json` (persisted from a previous run)
//!   3. auto-detect inside the container (`$SHELL`, then probe zsh, bash, sh)
//!   4. if auto-detect is ambiguous, prompt once and persist
//!
//! "Ambiguous" means that no concrete `$SHELL` could be read *and* more than
//! one candidate shell exists in the container, so we ask rather than guess.

use crate::docker::container::{exec_args, exec_capture, exec_status};
use crate::docker::{captured_text, run_docker_text, run_status, status_of, Container, ErrorView};
use crate::number::{decimal, law_decimal_reads_back, parse_usize, to_decimal, unsigned};
use crate::request::{
    answers, strings, utf8_lossy, Outcome, OutcomeView, Reply, ReplyView, Request, RequestView,
};
use crate::text::{occurs, stands_at, starts_with, trim, trimmed};
use vstd::prelude::*;

verus! {

/// The shells that are probed for, in order.
pub open spec fn candidates() -> Seq<Seq<char>> {
    seq!["/bin/zsh"@, "/usr/bin/zsh"@, "/bin/bash"@, "/bin/sh"@]
}

/// What is being waited for.
#[derive(Debug)]
pub enum ShellState {
    /// The container's own `$SHELL`.
    ReadingEnv,
    /// Whether that can be executed.
    CheckingEnv { shell: String },
    /// Whether a candidate can be executed; those that can so far.
    Probing { index: usize, found: Vec<String> },
    /// Which of several to take.
    Asking { found: Vec<String> },
}

/// A [`ShellState`] as plain values.
#[verifier::ext_equal]
pub enum ShellStateView {
    ReadingEnv,
    CheckingEnv { shell: Seq<char> },
    Probing { index: int, found: Seq<Seq<char>> },
    Asking { found: Seq<Seq<char>> },
}

impl DeepView for ShellState {
    type V = ShellStateView;

    open spec fn deep_view(&self) -> ShellStateView {
        match self {
            ShellState::ReadingEnv => ShellStateView::ReadingEnv,
            ShellState::CheckingEnv { shell } => ShellStateView::CheckingEnv { shell: shell@ },
            ShellState::Probing { index, found } => ShellStateView::Probing {
                index: *index as int,
                found: found.deep_view(),
            },
            ShellState::Asking { found } => ShellStateView::Asking { found: found.deep_view() },
        }
    }
}

/// Where the choice of a shell stands.
#[derive(Debug)]
pub enum ShellStep {
    /// Do what is asked for, then go on from the state with the answer.
    Wait(Request, ShellState),
    /// The shell, and whether to remember it for the project.
    Done { shell: String, persist: bool },
}

/// A [`ShellStep`] as plain values.
#[verifier::ext_equal]
pub enum ShellStepView {
    Wait(RequestView, ShellStateView),
    Done { shell: Seq<char>, persist: bool },
}

impl DeepView for ShellStep {
    type V = ShellStepView;

    open spec fn deep_view(&self) -> ShellStepView {
        match self {
            ShellStep::Wait(q, s) => ShellStepView::Wait(q.deep_view(), s.deep_view()),
            ShellStep::Done { shell, persist } => ShellStepView::Done {
                shell: shell@,
                persist: *persist,
            },
        }
    }
}

// ---------------------------------------------------------------------------
// The prompt
// ---------------------------------------------------------------------------

/// The candidates, one numbered line each.
pub open spec fn choice_lines(found: Seq<Seq<char>>) -> Seq<char>
    decreases found.len(),
{
    if found.len() == 0 {
        seq![]
    } else {
        choice_lines(found.drop_last()) + "  "@ + decimal(found.len()) + ") "@ + found.last()
            + "\n"@
    }
}

/// The question which shell to take.
pub open spec fn choice_text(found: Seq<Seq<char>>) -> Seq<char> {
    "\x1b[36mdevcon:\x1b[0m multiple shells available — pick one:\n"@ + choice_lines(found)
        + "Choice [1]: "@
}

/// The shell that an answer picks: by its number, or else the first.
pub open spec fn choice_of(found: Seq<Seq<char>>, line: Seq<char>) -> Seq<char> {
    match unsigned(trimmed(line)) {
        Some(n) => if 1 <= n <= found.len() {
            found[n - 1]
        } else {
            found[0]
        },
        None => found[0],
    }
}

/// The question which shell to take.
fn choice_question(found: &Vec<String>) -> (r: String)
    ensures
        r@ == choice_text(found.deep_view()),
{
    let mut r: String = "\x1b[36mdevcon:\x1b[0m multiple shells available — pick one:\n".to_owned();
    let ghost front = r@;
    let ghost list = found.deep_view();
    let mut i: usize = 0;
    assert(list.take(0) == Seq::<Seq<char>>::empty());
    assert(r@ == front + choice_lines(list.take(0)));
    while i < found.len()
        invariant
            list == found.deep_view(),
            front == "\x1b[36mdevcon:\x1b[0m multiple shells available — pick one:\n"@,
            i <= found.len(),
            r@ == front + choice_lines(list.take(i as int)),
        decreases found.len() - i,
    {
        assert(list[i as int] == found@[i as int]@);
        assert(list.take(i + 1).drop_last() == list.take(i as int));
        let ghost had = r@;
        let ghost lines = choice_lines(list.take(i as int));
        r.append("  ");
        r.append(to_decimal(i as u64 + 1).as_str());
        r.append(") ");
        r.append(found[i].as_str());
        r.append("\n");
        i += 1;
        assert(r@ == front + choice_lines(list.take(i as int)));
    }
    assert(list.take(i as int) == list);
    r.append("Choice [1]: ");
    r
}

/// The shell that an answer picks.
pub fn prompt(found: &Vec<String>, line: &str) -> (r: String)
    requires
        found.len() > 0,
    ensures
        r@ == choice_of(found.deep_view(), line@),
{
    assert(found.deep_view()[0] == found@[0]@);
    let trimmed_line = trim(line);
    if let Some(n) = parse_usize(trimmed_line) {
        if n >= 1 && n <= found.len() {
            assert(found.deep_view()[n - 1] == found@[n - 1]@);
            return found[n - 1].clone();
        }
    }
    found[0].clone()
}

// ---------------------------------------------------------------------------
// The choice
// ---------------------------------------------------------------------------

/// What tells whether a path can be executed in the container.
pub open spec fn test_args(id: Seq<char>, path: Seq<char>) -> Seq<Seq<char>> {
    exec_args(id, seq!["test"@, "-x"@, path])
}

/// What reads the container's `$SHELL`.
pub open spec fn env_args(id: Seq<char>) -> Seq<Seq<char>> {
    exec_args(id, seq!["sh"@, "-c"@, "echo $SHELL"@])
}

/// A path that can be executed, by how testing it went.
pub open spec fn tests_well(reply: ReplyView) -> bool {
    status_of(reply->Ran_0) == Ok::<bool, ErrorView>(true)
}

/// What a state speaks of is there.
pub open spec fn shell_state_fits(at: ShellStateView) -> bool {
    match at {
        ShellStateView::Probing { index, .. } => 0 <= index < candidates().len(),
        ShellStateView::Asking { found } => found.len() > 1,
        _ => true,
    }
}

/// What a state waits for.
pub open spec fn shell_request(id: Seq<char>, at: ShellStateView) -> RequestView {
    match at {
        ShellStateView::ReadingEnv => RequestView::Capture(env_args(id)),
        ShellStateView::CheckingEnv { shell } => RequestView::Run {
            args: test_args(id, shell),
            dir: None,
        },
        ShellStateView::Probing { index, .. } => RequestView::Run {
            args: test_args(id, candidates()[index]),
            dir: None,
        },
        ShellStateView::Asking { found } => RequestView::Ask(choice_text(found)),
    }
}

/// Wait in a state.
pub open spec fn shell_wait(id: Seq<char>, at: ShellStateView) -> ShellStepView {
    ShellStepView::Wait(shell_request(id, at), at)
}

/// The next candidate; after the last one, what was found decides. With
/// nobody to ask, the first of several is taken.
pub open spec fn shell_probe(
    id: Seq<char>,
    interactive: bool,
    index: int,
    found: Seq<Seq<char>>,
) -> ShellStepView {
    if index < candidates().len() {
        shell_wait(id, ShellStateView::Probing { index, found })
    } else if found.len() == 0 {
        ShellStepView::Done { shell: "/bin/sh"@, persist: false }
    } else if found.len() == 1 {
        ShellStepView::Done { shell: found[0], persist: false }
    } else if interactive {
        shell_wait(id, ShellStateView::Asking { found })
    } else {
        ShellStepView::Done { shell: found[0], persist: true }
    }
}

/// The first step: the flag, or else the config, or else the container.
pub open spec fn shell_start(
    flag: Option<Seq<char>>,
    cfg_shell: Option<Seq<char>>,
    id: Seq<char>,
) -> ShellStepView {
    match (flag, cfg_shell) {
        (Some(shell), _) => ShellStepView::Done { shell, persist: false },
        (None, Some(shell)) => ShellStepView::Done { shell, persist: false },
        (None, None) => shell_wait(id, ShellStateView::ReadingEnv),
    }
}

/// The step from a state with the answer that it waited for.
pub open spec fn shell_next(
    id: Seq<char>,
    interactive: bool,
    at: ShellStateView,
    reply: ReplyView,
) -> ShellStepView {
    match at {
        ShellStateView::ReadingEnv => match captured_text(env_args(id), reply->Ran_0) {
            Ok(text) => if "/"@.is_prefix_of(trimmed(text)) {
                shell_wait(id, ShellStateView::CheckingEnv { shell: trimmed(text) })
            } else {
                shell_probe(id, interactive, 0, seq![])
            },
            Err(_) => shell_probe(id, interactive, 0, seq![]),
        },
        ShellStateView::CheckingEnv { shell } => if tests_well(reply) {
            ShellStepView::Done { shell, persist: false }
        } else {
            shell_probe(id, interactive, 0, seq![])
        },
        ShellStateView::Probing { index, found } => if tests_well(reply) {
            shell_probe(id, interactive, index + 1, found.push(candidates()[index]))
        } else {
            shell_probe(id, interactive, index + 1, found)
        },
        ShellStateView::Asking { found } => ShellStepView::Done {
            shell: match reply->Line_0 {
                Ok(line) => choice_of(found, line),
                Err(_) => found[0],
            },
            persist: true,
        },
    }
}

/// A candidate by its index.
fn candidate(index: usize) -> (r: &'static str)
    requires
        index < 4,
    ensures
        r@ == candidates()[index as int],
{
    if index == 0 {
        "/bin/zsh"
    } else if index == 1 {
        "/usr/bin/zsh"
    } else if index == 2 {
        "/bin/bash"
    } else {
        "/bin/sh"
    }
}

/// What tells whether a path can be executed in the container.
fn is_executable(container: &Container, path: &str) -> (r: Request)
    ensures
        r.deep_view() == (RequestView::Run { args: test_args(container.id@, path@), dir: None }),
{
    let argv = strings(&["test", "-x", path]);
    assert(argv.deep_view() == seq!["test"@, "-x"@, path@]);
    Request::Run { args: exec_status(container, &argv), dir: None }
}

/// What reads the container's `$SHELL`.
fn read_env_shell(container: &Container) -> (r: Vec<String>)
    ensures
        r.deep_view() == env_args(container.id@),
{
    let argv = strings(&["sh", "-c", "echo $SHELL"]);
    assert(argv.deep_view() == seq!["sh"@, "-c"@, "echo $SHELL"@]);
    exec_capture(container, &argv)
}

/// Probe the candidates. If exactly one exists, it is certain; if several do,
/// ask.
fn detect(container: &Container, interactive: bool, index: usize, found: Vec<String>) -> (r:
    ShellStep)
    requires
        index <= 4,
    ensures
        r.deep_view() == shell_probe(container.id@, interactive, index as int, found.deep_view()),
        r matches ShellStep::Wait(_, s) ==> shell_state_fits(s.deep_view()),
{
    assert(found.deep_view().len() == found.len());
    if index < 4 {
        let request = is_executable(container, candidate(index));
        return ShellStep::Wait(request, ShellState::Probing { index, found });
    }
    if found.is_empty() {
        return ShellStep::Done { shell: "/bin/sh".to_owned(), persist: false };
    }
    assert(found.deep_view()[0] == found@[0]@);
    if found.len() == 1 {
        ShellStep::Done { shell: found[0].clone(), persist: false }
    } else if interactive {
        let request = Request::Ask(choice_question(&found));
        ShellStep::Wait(request, ShellState::Asking { found })
    } else {
        ShellStep::Done { shell: found[0].clone(), persist: true }
    }
}

fn no_shell() -> (r: Vec<String>)
    ensures
        r.deep_view() == Seq::<Seq<char>>::empty(),
{
    let r: Vec<String> = Vec::new();
    assert(r.deep_view() == Seq::<Seq<char>>::empty());
    r
}

/// Resolve the shell: the first step. `flag` is the value of `--shell`,
/// `cfg_shell` is what config already holds.
pub fn resolve(flag: Option<&str>, cfg_shell: Option<&str>, container: &Container) -> (r: ShellStep)
    ensures
        r.deep_view() == shell_start(flag.deep_view(), cfg_shell.deep_view(), container.id@),
        r matches ShellStep::Wait(_, s) ==> shell_state_fits(s.deep_view()),
{
    if let Some(s) = flag {
        return ShellStep::Done { shell: s.to_owned(), persist: false };
    }
    if let Some(s) = cfg_shell {
        return ShellStep::Done { shell: s.to_owned(), persist: false };
    }
    ShellStep::Wait(Request::Capture(read_env_shell(container)), ShellState::ReadingEnv)
}

/// True if a test in the container went well.
fn went_well(outcome: Outcome) -> (r: bool)
    ensures
        r == tests_well(ReplyView::Ran(outcome.deep_view())),
{
    match run_status(outcome) {
        Ok(success) => success,
        Err(_) => false,
    }
}

/// Go on with the choice of a shell from a state, with the answer it waited
/// for. `interactive` says whether there is someone to ask.
pub fn resolve_on(container: &Container, interactive: bool, at: ShellState, reply: Reply) -> (r:
    ShellStep)
    requires
        shell_state_fits(at.deep_view()),
        answers(reply.deep_view(), shell_request(container.id@, at.deep_view())),
    ensures
        r.deep_view() == shell_next(container.id@, interactive, at.deep_view(), reply.deep_view()),
        r matches ShellStep::Wait(_, s) ==> shell_state_fits(s.deep_view()),
{
    match (at, reply) {
        (ShellState::ReadingEnv, Reply::Ran(outcome)) => {
            if let Ok(text) = run_docker_text(&read_env_shell(container), outcome) {
                let shell = trim(text.as_str());
                // Only an absolute path that is really there counts.
                if starts_with(shell, "/") {
                    let request = is_executable(container, shell);
                    return ShellStep::Wait(
                        request,
                        ShellState::CheckingEnv { shell: shell.to_owned() },
                    );
                }
            }
            detect(container, interactive, 0, no_shell())
        },
        (ShellState::CheckingEnv { shell }, Reply::Ran(outcome)) => {
            if went_well(outcome) {
                ShellStep::Done { shell, persist: false }
            } else {
                detect(container, interactive, 0, no_shell())
            }
        },
        (ShellState::Probing { index, found }, Reply::Ran(outcome)) => {
            let mut found = found;
            if went_well(outcome) {
                crate::docker::container::add_arg(&mut found, candidate(index));
            }
            detect(container, interactive, index + 1, found)
        },
        (ShellState::Asking { found }, Reply::Line(line)) => {
            assert(found.deep_view()[0] == found@[0]@);
            let shell = match line {
                Ok(line) => prompt(&found, line.as_str()),
                Err(_) => found[0].clone(),
            };
            ShellStep::Done { shell, persist: true }
        },
        _ => ShellStep::Done { shell: String::new(), persist: false },
    }
}

// ---------------------------------------------------------------------------
// Laws
// ---------------------------------------------------------------------------

/// The flag beats the config, and both beat the container: neither lets
/// anything be asked, nor is the choice remembered.
pub proof fn law_flag_then_config(
    flag: Option<Seq<char>>,
    cfg_shell: Option<Seq<char>>,
    id: Seq<char>,
)
    requires
        flag is Some || cfg_shell is Some,
    ensures
        shell_start(flag, cfg_shell, id) == (ShellStepView::Done {
            shell: if flag is Some {
                flag->Some_0
            } else {
                cfg_shell->Some_0
            },
            persist: false,
        }),
{
}

/// Where the choice stands after at most `steps` answers of a world.
pub open spec fn shell_end(
    id: Seq<char>,
    interactive: bool,
    step: ShellStepView,
    world: spec_fn(RequestView) -> ReplyView,
    steps: nat,
) -> ShellStepView
    decreases steps,
{
    match step {
        ShellStepView::Wait(request, at) => if steps == 0 {
            step
        } else {
            shell_end(
                id,
                interactive,
                shell_next(id, interactive, at, world(request)),
                world,
                (steps - 1) as nat,
            )
        },
        ShellStepView::Done { .. } => step,
    }
}

/// A path can be executed in the container, in a world.
pub open spec fn executable(
    id: Seq<char>,
    world: spec_fn(RequestView) -> ReplyView,
    path: Seq<char>,
) -> bool {
    tests_well(world(RequestView::Run { args: test_args(id, path), dir: None }))
}

/// The first candidates that can be executed, in a world.
pub open spec fn present(
    id: Seq<char>,
    world: spec_fn(RequestView) -> ReplyView,
    upto: int,
) -> Seq<Seq<char>>
    decreases upto,
{
    if upto <= 0 {
        seq![]
    } else if executable(id, world, candidates()[upto - 1]) {
        present(id, world, upto - 1).push(candidates()[upto - 1])
    } else {
        present(id, world, upto - 1)
    }
}

/// The container's `$SHELL`, if it is an absolute path that can be executed,
/// in a world.
pub open spec fn own_shell(id: Seq<char>, world: spec_fn(RequestView) -> ReplyView) -> Option<
    Seq<char>,
> {
    match captured_text(env_args(id), world(RequestView::Capture(env_args(id)))->Ran_0) {
        Ok(text) => if "/"@.is_prefix_of(trimmed(text)) && executable(id, world, trimmed(text)) {
            Some(trimmed(text))
        } else {
            None
        },
        Err(_) => None,
    }
}

/// The shell that is detected in a world, and whether it is remembered.
pub open spec fn detected(
    id: Seq<char>,
    interactive: bool,
    world: spec_fn(RequestView) -> ReplyView,
) -> ShellStepView {
    let found = present(id, world, 4);
    match own_shell(id, world) {
        Some(shell) => ShellStepView::Done { shell, persist: false },
        None => if found.len() == 0 {
            ShellStepView::Done { shell: "/bin/sh"@, persist: false }
        } else if found.len() == 1 {
            ShellStepView::Done { shell: found[0], persist: false }
        } else {
            let picked = if interactive {
                match world(RequestView::Ask(choice_text(found)))->Line_0 {
                    Ok(line) => choice_of(found, line),
                    Err(_) => found[0],
                }
            } else {
                found[0]
            };
            ShellStepView::Done { shell: picked, persist: true }
        },
    }
}

proof fn lemma_probes(
    id: Seq<char>,
    interactive: bool,
    world: spec_fn(RequestView) -> ReplyView,
    index: int,
    steps: nat,
)
    requires
        0 <= index <= 4,
        steps >= 5 - index,
    ensures
        shell_end(
            id,
            interactive,
            shell_probe(id, interactive, index, present(id, world, index)),
            world,
            steps,
        ) == shell_end(
            id,
            interactive,
            shell_probe(id, interactive, 4, present(id, world, 4)),
            world,
            (steps - (4 - index)) as nat,
        ),
    decreases 4 - index,
{
    if index < 4 {
        let at = ShellStateView::Probing { index, found: present(id, world, index) };
        let next = shell_next(id, interactive, at, world(shell_request(id, at)));
        assert(next == shell_probe(id, interactive, index + 1, present(id, world, index + 1)));
        lemma_probes(id, interactive, world, index + 1, (steps - 1) as nat);
    }
}

/// Answered step by step, the choice ends at the container's own `$SHELL` if
/// that is a real path; or else at the candidate that is there; or else, with
/// several, at the one that the user picks. Only a pick among several is
/// remembered.
pub proof fn law_shell_is_detected(
    id: Seq<char>,
    interactive: bool,
    world: spec_fn(RequestView) -> ReplyView,
    steps: nat,
)
    requires
        steps >= 7,
    ensures
        shell_end(id, interactive, shell_start(None, None, id), world, steps) == detected(
            id,
            interactive,
            world,
        ),
{
    let env = ShellStateView::ReadingEnv;
    let first = shell_next(id, interactive, env, world(shell_request(id, env)));
    let left = (steps - 1) as nat;
    assert(shell_end(id, interactive, shell_wait(id, env), world, steps) == shell_end(
        id,
        interactive,
        first,
        world,
        left,
    ));
    let probing = shell_probe(id, interactive, 0, seq![]);
    lemma_probed(id, interactive, world, left);
    match captured_text(env_args(id), world(RequestView::Capture(env_args(id)))->Ran_0) {
        Ok(text) => if "/"@.is_prefix_of(trimmed(text)) {
            let at = ShellStateView::CheckingEnv { shell: trimmed(text) };
            let second = shell_next(id, interactive, at, world(shell_request(id, at)));
            assert(first == shell_wait(id, at));
            assert(shell_end(id, interactive, first, world, left) == shell_end(
                id,
                interactive,
                second,
                world,
                (left - 1) as nat,
            ));
            lemma_probed(id, interactive, world, (left - 1) as nat);
        } else {
            assert(first == probing);
        },
        Err(_) => {
            assert(first == probing);
        },
    }
}

/// Where the container's own shell is no help, the candidates decide.
proof fn lemma_probed(
    id: Seq<char>,
    interactive: bool,
    world: spec_fn(RequestView) -> ReplyView,
    steps: nat,
)
    requires
        steps >= 5,
    ensures
        own_shell(id, world) is None ==> shell_end(
            id,
            interactive,
            shell_probe(id, interactive, 0, seq![]),
            world,
            steps,
        ) == detected(id, interactive, world),
        own_shell(id, world) matches Some(shell) ==> detected(id, interactive, world) == (
        ShellStepView::Done { shell, persist: false }),
{
    lemma_probes(id, interactive, world, 0, steps);
    let found = present(id, world, 4);
    let last = shell_probe(id, interactive, 4, found);
    let left = (steps - 4) as nat;
    if found.len() > 1 && interactive {
        let at = ShellStateView::Asking { found };
        let next = shell_next(id, interactive, at, world(shell_request(id, at)));
        assert(last == shell_wait(id, at));
        assert(next is Done);
        assert(shell_end(id, interactive, last, world, left) == shell_end(
            id,
            interactive,
            next,
            world,
            (left - 1) as nat,
        ));
    }
}

/// The container's own `$SHELL` is read first. If it is an absolute path it is
/// tested, and taken if it can be executed; anything else leaves the choice to
/// the candidates.
pub proof fn law_own_shell_comes_first(
    id: Seq<char>,
    interactive: bool,
    stdout: Seq<u8>,
    stderr: Seq<u8>,
    shell: Seq<char>,
    reply: ReplyView,
)
    ensures
        shell_start(None, None, id) == ShellStepView::Wait(
            RequestView::Capture(seq!["exec"@, id, "sh"@, "-c"@, "echo $SHELL"@]),
            ShellStateView::ReadingEnv,
        ),
        ({
            let text = trimmed(utf8_lossy(stdout));
            let said = ReplyView::Ran(OutcomeView::Exited { success: true, stdout, stderr });
            shell_next(id, interactive, ShellStateView::ReadingEnv, said) == if text.len() > 0
                && text[0] == '/' {
                ShellStepView::Wait(
                    RequestView::Run {
                        args: seq!["exec"@, id, "test"@, "-x"@, text],
                        dir: None,
                    },
                    ShellStateView::CheckingEnv { shell: text },
                )
            } else {
                first_probe(id)
            }
        }),
        !(reply->Ran_0 matches OutcomeView::Exited { success: true, .. }) ==> shell_next(
            id,
            interactive,
            ShellStateView::ReadingEnv,
            reply,
        ) == first_probe(id),
        shell_next(id, interactive, ShellStateView::CheckingEnv { shell }, reply) == if reply->Ran_0
            matches OutcomeView::Exited { success: true, .. } {
            ShellStepView::Done { shell, persist: false }
        } else {
            first_probe(id)
        },
{
    reveal_strlit("/");
    let text = trimmed(utf8_lossy(stdout));
    assert("/"@ == seq!['/']);
    assert("/"@.is_prefix_of(text) <==> text.len() > 0 && text[0] == '/') by {
        if text.len() > 0 {
            assert(text.subrange(0, 1) == seq![text[0]]);
            assert(seq![text[0]][0] == text[0]);
            assert(seq!['/'][0] == '/');
        }
    }
    assert(env_args(id) == seq!["exec"@, id, "sh"@, "-c"@, "echo $SHELL"@]);
    assert(test_args(id, text) == seq!["exec"@, id, "test"@, "-x"@, text]);
    assert(test_args(id, "/bin/zsh"@) == seq!["exec"@, id, "test"@, "-x"@, "/bin/zsh"@]);
}

/// The probe for zsh, with nothing found yet.
pub open spec fn first_probe(id: Seq<char>) -> ShellStepView {
    ShellStepView::Wait(
        RequestView::Run { args: seq!["exec"@, id, "test"@, "-x"@, "/bin/zsh"@], dir: None },
        ShellStateView::Probing { index: 0, found: seq![] },
    )
}

/// The candidates are probed in order: zsh in its two places, then bash, then
/// sh. Each that can be executed is kept, behind those before it.
pub proof fn law_candidates_are_probed_in_order(
    id: Seq<char>,
    interactive: bool,
    found: Seq<Seq<char>>,
    index: int,
    path: Seq<char>,
    next: Seq<char>,
    reply: ReplyView,
)
    requires
        index == 0 ==> path == "/bin/zsh"@ && next == "/usr/bin/zsh"@,
        index == 1 ==> path == "/usr/bin/zsh"@ && next == "/bin/bash"@,
        index == 2 ==> path == "/bin/bash"@ && next == "/bin/sh"@,
        0 <= index < 3,
    ensures
        shell_request(id, ShellStateView::Probing { index, found }) == (RequestView::Run {
            args: seq!["exec"@, id, "test"@, "-x"@, path],
            dir: None,
        }),
        shell_next(id, interactive, ShellStateView::Probing { index, found }, reply)
            == ShellStepView::Wait(
            RequestView::Run { args: seq!["exec"@, id, "test"@, "-x"@, next], dir: None },
            ShellStateView::Probing {
                index: index + 1,
                found: if reply->Ran_0 matches OutcomeView::Exited { success: true, .. } {
                    found.push(path)
                } else {
                    found
                },
            },
        ),
{
    assert(test_args(id, path) == seq!["exec"@, id, "test"@, "-x"@, path]);
    assert(test_args(id, next) == seq!["exec"@, id, "test"@, "-x"@, next]);
}

/// After the last candidate, what was found decides: a single one is taken,
/// none leaves sh, and of several the user picks one if there is a user, or
/// else the first is taken. Only a choice among several is remembered.
pub proof fn law_what_was_found_decides(
    id: Seq<char>,
    interactive: bool,
    before: Seq<Seq<char>>,
    reply: ReplyView,
    found: Seq<Seq<char>>,
    line: Seq<char>,
)
    requires
        found == if reply->Ran_0 matches OutcomeView::Exited { success: true, .. } {
            before.push("/bin/sh"@)
        } else {
            before
        },
    ensures
        ({
            let end = shell_next(
                id,
                interactive,
                ShellStateView::Probing { index: 3, found: before },
                reply,
            );
            &&& found.len() == 0 ==> end == (ShellStepView::Done {
                shell: "/bin/sh"@,
                persist: false,
            })
            &&& found.len() == 1 ==> end == (ShellStepView::Done {
                shell: found[0],
                persist: false,
            })
            &&& found.len() > 1 && !interactive ==> end == (ShellStepView::Done {
                shell: found[0],
                persist: true,
            })
            &&& found.len() > 1 && interactive ==> (end matches ShellStepView::Wait(
                RequestView::Ask(_),
                at,
            ) && at == (ShellStateView::Asking { found }))
        }),
        shell_next(
            id,
            interactive,
            ShellStateView::Asking { found },
            ReplyView::Line(Ok(line)),
        ) == (ShellStepView::Done { shell: choice_of(found, line), persist: true }),
{
}

/// A number picks the shell of that number, counted from one; anything else
/// picks the first.
pub proof fn law_number_picks(found: Seq<Seq<char>>, line: Seq<char>, n: nat)
    requires
        found.len() > 0,
    ensures
        trimmed(line) == decimal(n) && 1 <= n <= found.len() ==> choice_of(found, line) == found[n
            - 1],
        trimmed(line) == decimal(n) && !(1 <= n <= found.len()) ==> choice_of(found, line)
            == found[0],
        trimmed(line).len() == 0 ==> choice_of(found, line) == found[0],
        found.contains(choice_of(found, line)),
{
    law_decimal_reads_back(n);
    assert(found.contains(found[0]));
    if let Some(k) = unsigned(trimmed(line)) {
        if 1 <= k <= found.len() {
            assert(found.contains(found[k - 1]));
        }
    }
}

/// The prompt shows every shell that can be picked, with its number before it.
pub proof fn law_prompt_shows_each(found: Seq<Seq<char>>, i: int)
    requires
        0 <= i < found.len(),
    ensures
        occurs(
            choice_text(found),
            "  "@ + decimal((i + 1) as nat) + ") "@ + found[i] + "\n"@,
        ),
{
    lemma_lines_show(found, i);
    let line = "  "@ + decimal((i + 1) as nat) + ") "@ + found[i] + "\n"@;
    let a = "\x1b[36mdevcon:\x1b[0m multiple shells available — pick one:\n"@;
    let s = choice_lines(found);
    let all = choice_text(found);
    let at = choose|at: int| stands_at(s, line, at);
    let n = a.len() as int;
    assert(all.subrange(n + at, n + at + line.len()) == s.subrange(at, at + line.len()));
    assert(stands_at(all, line, n + at));
}

proof fn lemma_lines_show(found: Seq<Seq<char>>, i: int)
    requires
        0 <= i < found.len(),
    ensures
        occurs(
            choice_lines(found),
            "  "@ + decimal((i + 1) as nat) + ") "@ + found[i] + "\n"@,
        ),
    decreases found.len(),
{
    let line = "  "@ + decimal((i + 1) as nat) + ") "@ + found[i] + "\n"@;
    let rest = choice_lines(found.drop_last());
    let all = choice_lines(found);
    if i == found.len() - 1 {
        assert(all == rest + line);
        assert(all.subrange(rest.len() as int, all.len() as int) == line);
        assert(stands_at(all, line, rest.len() as int));
    } else {
        lemma_lines_show(found.drop_last(), i);
        let at = choose|at: int| stands_at(rest, line, at);
        assert(all.subrange(at, at + line.len()) == rest.subrange(at, at + line.len()));
        assert(stands_at(all, line, at));
    }
}

} // verus!

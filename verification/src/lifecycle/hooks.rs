//! The lifecycle hooks: what is run in a container, and what records that it
//! was.

use super::{error_text, Error, ErrorView};
use crate::devcontainer::{CommandView, Devcontainer, DevcontainerView, PostCreateCommand};
use crate::docker::MARKER_SENTINEL;
use crate::request::strings;
use crate::text::{copy, join, joined};
use vstd::prelude::*;

verus! {

// ---------------------------------------------------------------------------
// Sentinels
// ---------------------------------------------------------------------------

/// ASCII letters and digits.
pub open spec fn is_alphanumeric(c: char) -> bool {
    '0' <= c <= '9' || 'A' <= c <= 'Z' || 'a' <= c <= 'z'
}

/// The letters and digits of a text.
pub open spec fn token(s: Seq<char>) -> Seq<char> {
    s.filter(|c: char| is_alphanumeric(c))
}

/// Where it is recorded that postStart ran for a start.
pub open spec fn start_sentinel(started_at: Option<Seq<char>>) -> Seq<char> {
    "/tmp/.devcon-poststart-"@ + token(
        match started_at {
            Some(s) => s,
            None => "unknown"@,
        },
    )
}

/// Filesystem-safe sentinel path for postStart, incorporating the container's
/// `StartedAt` so that it is distinct per start (and absent after a restart).
pub fn post_start_sentinel(started_at: Option<&str>) -> (r: String)
    ensures
        r@ == start_sentinel(started_at.deep_view()),
{
    let s = match started_at {
        Some(s) => s,
        None => "unknown",
    };
    let chars = crate::text::chars_of(s);
    let ghost pred = |c: char| is_alphanumeric(c);
    let mut r: String = "/tmp/.devcon-poststart-".to_owned();
    let mut i: usize = 0;
    assert(chars@.take(0).filter(pred) == Seq::<char>::empty()) by {
        reveal(Seq::filter);
    }
    while i < chars.len()
        invariant
            pred == (|c: char| is_alphanumeric(c)),
            i <= chars.len(),
            r@ == "/tmp/.devcon-poststart-"@ + chars@.take(i as int).filter(pred),
        decreases chars.len() - i,
    {
        let c: char = chars[i];
        assert(chars@.take(i + 1) == chars@.take(i as int).push(c));
        proof {
            chars@.take(i as int).lemma_filter_push(c, pred);
        }
        if ('0' <= c && c <= '9') || ('A' <= c && c <= 'Z') || ('a' <= c && c <= 'z') {
            r.push(c);
        }
        i += 1;
    }
    assert(chars@.take(i as int) == chars@);
    r
}

// ---------------------------------------------------------------------------
// Hooks
// ---------------------------------------------------------------------------

/// A hook that is due.
#[derive(Debug)]
pub enum Hook {
    /// `postCreateCommand`.
    Create,
    /// `postStartCommand`, with the sentinel of the start it is for.
    Start(String),
}

/// A [`Hook`] as plain values.
#[verifier::ext_equal]
pub enum HookView {
    Create,
    Start(Seq<char>),
}

impl DeepView for Hook {
    type V = HookView;

    open spec fn deep_view(&self) -> HookView {
        match self {
            Hook::Create => HookView::Create,
            Hook::Start(sentinel) => HookView::Start(sentinel@),
        }
    }
}

/// The name of a hook in devcontainer.json.
pub open spec fn hook_name(hook: HookView) -> Seq<char> {
    match hook {
        HookView::Create => "postCreateCommand"@,
        HookView::Start(_) => "postStartCommand"@,
    }
}

/// The commands that are declared for a hook.
pub open spec fn hook_commands(dc: DevcontainerView, hook: HookView) -> Seq<CommandView> {
    match hook {
        HookView::Create => dc.post_create,
        HookView::Start(_) => dc.post_start,
    }
}

/// The file that records that a hook ran.
pub open spec fn hook_sentinel(hook: HookView) -> Seq<char> {
    match hook {
        HookView::Create => MARKER_SENTINEL@,
        HookView::Start(sentinel) => sentinel,
    }
}

/// What a command runs in the container.
pub open spec fn command_argv(cmd: CommandView) -> Seq<Seq<char>> {
    match cmd {
        CommandView::Shell(s) => seq!["sh"@, "-c"@, s],
        CommandView::Argv(v) => v,
    }
}

/// A command in words.
pub open spec fn command_text(cmd: CommandView) -> Seq<char> {
    match cmd {
        CommandView::Shell(s) => s,
        CommandView::Argv(v) => joined(v, " "@),
    }
}

/// What records in the container that a hook ran.
pub open spec fn stamp_argv(hook: HookView) -> Seq<Seq<char>> {
    seq!["sh"@, "-c"@, "touch "@ + hook_sentinel(hook) + " 2>/dev/null || true"@]
}

impl Hook {
    /// The name of the hook in devcontainer.json.
    pub fn name(&self) -> (r: &'static str)
        ensures
            r@ == hook_name(self.deep_view()),
    {
        match self {
            Hook::Create => "postCreateCommand",
            Hook::Start(_) => "postStartCommand",
        }
    }

    /// The commands that are declared for the hook.
    pub fn commands<'a>(&self, dc: &'a Devcontainer) -> (r: &'a Vec<PostCreateCommand>)
        ensures
            r.deep_view() == hook_commands(dc.deep_view(), self.deep_view()),
    {
        match self {
            Hook::Create => &dc.post_create,
            Hook::Start(_) => &dc.post_start,
        }
    }

    /// What records in the container that the hook ran. A sentinel file works
    /// regardless of who created the container; docker has no command that
    /// adds a label to a running one.
    pub fn stamp(&self) -> (r: Vec<String>)
        ensures
            r.deep_view() == stamp_argv(self.deep_view()),
    {
        let mut touch: String = "touch ".to_owned();
        match self {
            Hook::Create => touch.append(MARKER_SENTINEL),
            Hook::Start(sentinel) => touch.append(sentinel.as_str()),
        }
        touch.append(" 2>/dev/null || true");
        let r = strings(&["sh", "-c", touch.as_str()]);
        assert(r.deep_view() == stamp_argv(self.deep_view()));
        r
    }
}

/// What a command runs in the container.
pub fn argv(cmd: &PostCreateCommand) -> (r: Vec<String>)
    ensures
        r.deep_view() == command_argv(cmd.deep_view()),
{
    match cmd {
        PostCreateCommand::Shell(s) => {
            let r = strings(&["sh", "-c", s.as_str()]);
            assert(r.deep_view() == seq!["sh"@, "-c"@, s@]);
            r
        },
        PostCreateCommand::Argv(v) => copy(v),
    }
}

/// A command in words.
pub fn describe(cmd: &PostCreateCommand) -> (r: String)
    ensures
        r@ == command_text(cmd.deep_view()),
{
    match cmd {
        PostCreateCommand::Shell(s) => s.clone(),
        PostCreateCommand::Argv(v) => join(v, " "),
    }
}

/// The warning that a hook failed.
pub open spec fn warning_text(e: ErrorView) -> Seq<char> {
    "\x1b[33mdevcon:\x1b[0m "@ + error_text(e)
        + " — connecting anyway; it will retry on the next connect once the cause is fixed."@
}

/// The report of a lifecycle-hook failure, which aborts nothing: a broken hook
/// cannot lock anyone out of the container.
pub fn warn_lifecycle(e: &Error) -> (r: String)
    ensures
        r@ == warning_text(e.deep_view()),
{
    let mut r: String = "\x1b[33mdevcon:\x1b[0m ".to_owned();
    r.append(e.message().as_str());
    r.append(
        " — connecting anyway; it will retry on the next connect once the cause is fixed.",
    );
    r
}

/// The announcement of a hook.
pub open spec fn running_text(hook: HookView) -> Seq<char> {
    "\x1b[36mdevcon:\x1b[0m running "@ + hook_name(hook) + "…"@
}

/// The announcement of a hook.
pub fn announce(hook: &Hook) -> (r: String)
    ensures
        r@ == running_text(hook.deep_view()),
{
    let mut r: String = "\x1b[36mdevcon:\x1b[0m running ".to_owned();
    r.append(hook.name());
    r.append("…");
    r
}

// ---------------------------------------------------------------------------
// Laws
// ---------------------------------------------------------------------------

/// A start's sentinel is path-safe: a file of `/tmp` whose name ends in
/// letters and digits alone.
pub proof fn law_sentinel_is_path_safe(started_at: Option<Seq<char>>)
    ensures
        "/tmp/.devcon-poststart-"@.is_prefix_of(start_sentinel(started_at)),
        forall|i: int|
            "/tmp/.devcon-poststart-"@.len() <= i < start_sentinel(started_at).len()
                ==> is_alphanumeric(#[trigger] start_sentinel(started_at)[i]),
{
    let front = "/tmp/.devcon-poststart-"@;
    let s = match started_at {
        Some(s) => s,
        None => "unknown"@,
    };
    let whole = start_sentinel(started_at);
    assert(whole.take(front.len() as int) == front);
    assert forall|i: int| front.len() <= i < whole.len() implies is_alphanumeric(
        #[trigger] whole[i],
    ) by {
        s.lemma_filter_pred(|c: char| is_alphanumeric(c), i - front.len());
    }
}

/// A UTC timestamp as docker prints it: `YYYY-MM-DDTHH:MM:SS`, then a fraction
/// or none, then `Z`.
pub open spec fn is_docker_time(s: Seq<char>) -> bool {
    &&& s.len() == 20 || s.len() > 21
    &&& s[4] == '-' && s[7] == '-' && s[10] == 'T' && s[13] == ':' && s[16] == ':'
    &&& forall|i: int|
        0 <= i < 19 && i != 4 && i != 7 && i != 10 && i != 13 && i != 16 ==> '0' <= #[trigger] s[i]
            <= '9'
    &&& s.len() > 21 ==> s[19] == '.'
    &&& forall|i: int| 20 <= i < s.len() - 1 ==> '0' <= #[trigger] s[i] <= '9'
    &&& s.last() == 'Z'
}

/// A stretch of letters and digits stays as it is.
proof fn lemma_token_keeps(s: Seq<char>, i: int, j: int)
    requires
        0 <= i <= j <= s.len(),
        forall|k: int| i <= k < j ==> is_alphanumeric(#[trigger] s[k]),
    ensures
        token(s.skip(i)) == s.subrange(i, j) + token(s.skip(j)),
    decreases j - i,
{
    if i < j {
        let pred = |c: char| is_alphanumeric(c);
        let head = s.skip(i).take(1);
        assert(s.skip(i) == head + s.skip(i + 1));
        Seq::filter_distributes_over_add(head, s.skip(i + 1), pred);
        assert(head == Seq::<char>::empty().push(s[i]));
        Seq::<char>::empty().lemma_filter_push(s[i], pred);
        assert(Seq::<char>::empty().filter(pred) == Seq::<char>::empty()) by {
            reveal(Seq::filter);
        }
        assert(head.filter(pred) == head);
        lemma_token_keeps(s, i + 1, j);
        assert(s.subrange(i, j) == head + s.subrange(i + 1, j));
    } else {
        assert(s.subrange(i, j) == Seq::<char>::empty());
    }
}

/// What is no letter or digit goes.
proof fn lemma_token_drops(s: Seq<char>, i: int)
    requires
        0 <= i < s.len(),
        !is_alphanumeric(s[i]),
    ensures
        token(s.skip(i)) == token(s.skip(i + 1)),
{
    let pred = |c: char| is_alphanumeric(c);
    let head = s.skip(i).take(1);
    assert(s.skip(i) == head + s.skip(i + 1));
    Seq::filter_distributes_over_add(head, s.skip(i + 1), pred);
    assert(head == Seq::<char>::empty().push(s[i]));
    Seq::<char>::empty().lemma_filter_push(s[i], pred);
    assert(Seq::<char>::empty().filter(pred) == Seq::<char>::empty()) by {
        reveal(Seq::filter);
    }
}

/// The token of a timestamp: its date, its time, its fraction, `Z`.
proof fn lemma_token_of_time(s: Seq<char>)
    requires
        is_docker_time(s),
    ensures
        token(s) == s.subrange(0, 4) + (s.subrange(5, 7) + (s.subrange(8, 13) + (s.subrange(14, 16)
            + (s.subrange(17, 19) + if s.len() == 20 {
            s.skip(19)
        } else {
            s.skip(20)
        })))),
{
    let n = s.len() as int;
    assert(s.skip(0) == s);
    lemma_token_keeps(s, 0, 4);
    lemma_token_drops(s, 4);
    lemma_token_keeps(s, 5, 7);
    lemma_token_drops(s, 7);
    lemma_token_keeps(s, 8, 13);
    lemma_token_drops(s, 13);
    lemma_token_keeps(s, 14, 16);
    lemma_token_drops(s, 16);
    lemma_token_keeps(s, 17, 19);
    assert(token(s.skip(n)) == Seq::<char>::empty()) by {
        assert(s.skip(n) == Seq::<char>::empty());
        reveal(Seq::filter);
    }
    if n == 20 {
        lemma_token_keeps(s, 19, n);
        assert(s.subrange(19, n) + Seq::<char>::empty() == s.skip(19));
    } else {
        lemma_token_drops(s, 19);
        lemma_token_keeps(s, 20, n);
        assert(s.subrange(20, n) + Seq::<char>::empty() == s.skip(20));
    }
}

/// Different starts have different sentinels, so a restart runs postStart
/// again.
pub proof fn law_sentinel_is_start_specific(a: Seq<char>, b: Seq<char>)
    requires
        is_docker_time(a),
        is_docker_time(b),
        a != b,
    ensures
        start_sentinel(Some(a)) != start_sentinel(Some(b)),
{
    if start_sentinel(Some(a)) == start_sentinel(Some(b)) {
        let front = "/tmp/.devcon-poststart-"@;
        assert(start_sentinel(Some(a)).skip(front.len() as int) == token(a));
        assert(start_sentinel(Some(b)).skip(front.len() as int) == token(b));
        lemma_token_of_time(a);
        lemma_token_of_time(b);
        let t = token(a);
        let u = token(b);
        assert(t == u);
        assert(a.len() == b.len());
        assert forall|i: int| 0 <= i < a.len() implies a[i] == b[i] by {
            if i < 4 {
                assert(t[i] == a[i] && u[i] == b[i]);
            } else if 4 < i < 7 {
                assert(t[i - 1] == a[i] && u[i - 1] == b[i]);
            } else if 7 < i < 13 {
                assert(t[i - 2] == a[i] && u[i - 2] == b[i]);
            } else if 13 < i < 16 {
                assert(t[i - 3] == a[i] && u[i - 3] == b[i]);
            } else if 16 < i < 19 {
                assert(t[i - 4] == a[i] && u[i - 4] == b[i]);
            } else if i > 19 {
                assert(t[i - 5] == a[i] && u[i - 5] == b[i]);
            }
        }
        assert(a == b);
    }
}

/// A token is the text without what is no letter or digit, in order; a start
/// whose time is not known has a sentinel all the same.
pub proof fn law_token(a: Seq<char>, c: char, b: Seq<char>)
    ensures
        token(a + seq![c] + b) == token(a) + (if ('0' <= c && c <= '9') || ('A' <= c && c <= 'Z')
            || ('a' <= c && c <= 'z') {
            seq![c]
        } else {
            Seq::<char>::empty()
        }) + token(b),
        token(Seq::<char>::empty()).len() == 0,
        start_sentinel(None) == "/tmp/.devcon-poststart-unknown"@,
        start_sentinel(Some(a)) == "/tmp/.devcon-poststart-"@ + token(a),
{
    let pred = |c: char| is_alphanumeric(c);
    Seq::filter_distributes_over_add(a + seq![c], b, pred);
    Seq::filter_distributes_over_add(a, seq![c], pred);
    let none = Seq::<char>::empty();
    none.lemma_filter_push(c, pred);
    assert(none.push(c) == seq![c]);
    assert(none.filter(pred) == none) by {
        reveal(Seq::filter);
    }
    assert(seq![c].filter(pred) == if is_alphanumeric(c) {
        seq![c]
    } else {
        none
    });
    reveal_strlit("/tmp/.devcon-poststart-unknown");
    reveal_strlit("/tmp/.devcon-poststart-");
    reveal_strlit("unknown");
    let u = "unknown"@;
    lemma_token_keeps(u, 0, 7);
    assert(u.skip(0) == u);
    assert(u.subrange(0, 7) == u);
    assert(u.skip(7) == none);
    assert(token(u) == u + token(none));
    assert(start_sentinel(None) == "/tmp/.devcon-poststart-unknown"@);
}

/// Each hook goes by its own name and runs its own commands.
pub proof fn law_hooks_are_told_apart(
    dc: DevcontainerView,
    sentinel: Seq<char>,
    line: Seq<char>,
    argv: Seq<Seq<char>>,
)
    ensures
        hook_name(HookView::Create) == "postCreateCommand"@,
        hook_name(HookView::Start(sentinel)) == "postStartCommand"@,
        hook_commands(dc, HookView::Create) == dc.post_create,
        hook_commands(dc, HookView::Start(sentinel)) == dc.post_start,
        hook_sentinel(HookView::Create) == MARKER_SENTINEL@,
        hook_sentinel(HookView::Start(sentinel)) == sentinel,
        command_argv(CommandView::Shell(line)) == seq!["sh"@, "-c"@, line],
        command_argv(CommandView::Argv(argv)) == argv,
        command_text(CommandView::Shell(line)) == line,
{
}

} // verus!

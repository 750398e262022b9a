//! Drift: what tells that a container no longer reflects its definition, and
//! how the user is asked about it.

use crate::devcontainer::{compose_based, Devcontainer, DevcontainerView};
use crate::docker::container::describe_kind;
use crate::path::{law_relative_is_the_rest, plain_names, relative, strip_prefix};
use crate::text::{
    eq_ignore_ascii_case, join, joined, law_same_but_case, lemma_occurs_inside, lower, occurs,
    same_but_case, trim, trimmed,
};
use vstd::prelude::*;

verus! {

/// A file as the user is shown it: from the project root on, where it lies
/// there.
pub open spec fn shown(path: Seq<char>, project_root: Seq<char>) -> Seq<char> {
    match relative(path, project_root) {
        Some(rest) => rest,
        None => path,
    }
}

/// Present a stack file relative to the project root when possible, for a
/// tidier message.
pub fn display_relative(path: &str, project_root: &str) -> (r: String)
    ensures
        r@ == shown(path@, project_root@),
{
    match strip_prefix(path, project_root) {
        Some(rest) => rest.to_owned(),
        None => path.to_owned(),
    }
}

/// A file that was modified, as far as is known, after a container was made.
pub open spec fn newer(modified: Option<i64>, created: i64) -> bool {
    match modified {
        Some(secs) => secs > created,
        None => false,
    }
}

/// True if a file's modification time is strictly after `created`, both in
/// Unix seconds. One whose time is not known is not.
pub fn file_newer_than(modified: Option<i64>, created: i64) -> (r: bool)
    ensures
        r == newer(modified, created),
{
    match modified {
        Some(secs) => secs > created,
        None => false,
    }
}

/// `"compose"` / `"container"`.
pub open spec fn kind_of(is_compose: bool) -> Seq<char> {
    if is_compose {
        "compose"@
    } else {
        "container"@
    }
}

/// `"compose"` / `"container"`, for drift/rebuild messages.
pub fn kind_word(is_compose: bool) -> (r: &'static str)
    ensures
        r@ == kind_of(is_compose),
{
    if is_compose {
        "compose"
    } else {
        "container"
    }
}

/// The kinds of the running and of the declared stack, in words.
pub open spec fn switch_text(existing_compose: bool, target_compose: bool) -> Seq<char> {
    "its stack type ("@ + kind_of(existing_compose) + " → "@ + kind_of(target_compose) + ")"@
}

/// All that changed: a switch of the stack type first, as the decisive reason,
/// then the files.
pub open spec fn changes(
    dc: DevcontainerView,
    existing_compose: bool,
    files: Seq<Seq<char>>,
) -> Seq<Seq<char>> {
    if existing_compose != compose_based(dc) {
        seq![switch_text(existing_compose, compose_based(dc))] + files
    } else {
        files
    }
}

/// All that changed, the switch of the stack type before the files.
pub fn all_changes(dc: &Devcontainer, existing_compose: bool, files: Vec<String>) -> (r: Vec<
    String,
>)
    ensures
        r.deep_view() == changes(dc.deep_view(), existing_compose, files.deep_view()),
{
    if existing_compose == dc.is_compose() {
        return files;
    }
    let mut change: String = "its stack type (".to_owned();
    change.append(kind_word(existing_compose));
    change.append(" → ");
    change.append(kind_word(dc.is_compose()));
    change.append(")");
    let ghost had = files.deep_view();
    let mut r = files;
    r.insert(0, change);
    assert(r.deep_view() == seq![change@] + had);
    r
}

// ---------------------------------------------------------------------------
// Asking
// ---------------------------------------------------------------------------

/// A yes in as many words, in any case.
pub open spec fn is_yes(line: Seq<char>) -> bool {
    same_but_case(trimmed(line), "y"@) || same_but_case(trimmed(line), "yes"@)
}

/// The answer to whether to rebuild. Recreating drops the container, so only
/// an explicit yes counts.
pub fn confirm_rebuild(line: &str) -> (r: bool)
    ensures
        r == is_yes(line@),
{
    let answer = trim(line);
    eq_ignore_ascii_case(answer, "y") || eq_ignore_ascii_case(answer, "yes")
}

/// A yes, or nothing at all.
pub open spec fn is_yes_or_empty(line: Seq<char>) -> bool {
    trimmed(line).len() == 0 || is_yes(line)
}

/// The answer to whether to start the stack. An empty one is a yes.
pub fn confirm_start(line: &str) -> (r: bool)
    ensures
        r == is_yes_or_empty(line@),
{
    trim(line).is_empty() || confirm_rebuild(line)
}

/// The question whether to start the stack.
pub open spec fn start_text(dc: DevcontainerView) -> Seq<char> {
    "\x1b[36mdevcon:\x1b[0m "@ + match dc.name {
        Some(name) => name,
        None => "this project"@,
    } + " "@ + if compose_based(dc) {
        "compose stack"@
    } else {
        "container"@
    } + " isn't running. Start it? [Y/n] "@
}

/// The question whether to start the stack.
pub fn start_question(dc: &Devcontainer) -> (r: String)
    ensures
        r@ == start_text(dc.deep_view()),
{
    let mut r: String = "\x1b[36mdevcon:\x1b[0m ".to_owned();
    match &dc.name {
        Some(name) => r.append(name.as_str()),
        None => r.append("this project"),
    }
    r.append(" ");
    r.append(describe_kind(dc));
    r.append(" isn't running. Start it? [Y/n] ");
    r
}

/// The question whether to rebuild.
pub open spec fn rebuild_text(changed: Seq<Seq<char>>) -> Seq<char> {
    "\x1b[36mdevcon:\x1b[0m "@ + joined(changed, ", "@)
        + " changed since this container was built. Rebuild it? [y/N] "@
}

/// The question whether to rebuild.
pub fn rebuild_question(changed: &Vec<String>) -> (r: String)
    ensures
        r@ == rebuild_text(changed.deep_view()),
{
    let mut r: String = "\x1b[36mdevcon:\x1b[0m ".to_owned();
    r.append(join(changed, ", ").as_str());
    r.append(" changed since this container was built. Rebuild it? [y/N] ");
    r
}

/// The notice where nobody can be asked.
pub open spec fn notice_text(changed: Seq<Seq<char>>) -> Seq<char> {
    "\x1b[33mdevcon:\x1b[0m "@ + joined(changed, ", "@)
        + " changed since this container was built — run `devcon --rebuild` to recreate it."@
}

/// The notice where nobody can be asked.
pub fn drift_notice(changed: &Vec<String>) -> (r: String)
    ensures
        r@ == notice_text(changed.deep_view()),
{
    let mut r: String = "\x1b[33mdevcon:\x1b[0m ".to_owned();
    r.append(join(changed, ", ").as_str());
    r.append(" changed since this container was built — run `devcon --rebuild` to recreate it.");
    r
}

// ---------------------------------------------------------------------------
// Laws
// ---------------------------------------------------------------------------

/// A yes is `y` or `yes`, in small letters or capitals and with any blanks
/// around it, and nothing else. Where a yes is the default, so is nothing.
pub proof fn law_yes(line: Seq<char>)
    ensures
        ({
            let s = trimmed(line);
            let yes = (s.len() == 1 && (s[0] == 'y' || s[0] == 'Y')) || (s.len() == 3 && (s[0]
                == 'y' || s[0] == 'Y') && (s[1] == 'e' || s[1] == 'E') && (s[2] == 's' || s[2]
                == 'S'));
            &&& is_yes(line) <==> yes
            &&& is_yes_or_empty(line) <==> yes || s.len() == 0
        }),
{
    reveal_strlit("y");
    reveal_strlit("yes");
    let s = trimmed(line);
    let y = "y"@;
    let yes = "yes"@;
    assert(y.len() == 1 && y[0] == 'y');
    assert(yes.len() == 3 && yes[0] == 'y' && yes[1] == 'e' && yes[2] == 's');
    assert(same_but_case(s, y) <==> s.len() == 1 && (s[0] == 'y' || s[0] == 'Y')) by {
        if s.len() == 1 && (s[0] == 'y' || s[0] == 'Y') {
            assert(lower(s[0]) == lower(y[0]));
        }
        if same_but_case(s, y) {
            law_same_but_case(s, y, 0);
        }
    }
    assert(same_but_case(s, yes) <==> s.len() == 3 && (s[0] == 'y' || s[0] == 'Y') && (s[1] == 'e'
        || s[1] == 'E') && (s[2] == 's' || s[2] == 'S')) by {
        if s.len() == 3 && (s[0] == 'y' || s[0] == 'Y') && (s[1] == 'e' || s[1] == 'E') && (s[2]
            == 's' || s[2] == 'S') {
            assert(lower(s[0]) == lower(yes[0]));
            assert(lower(s[1]) == lower(yes[1]));
            assert(lower(s[2]) == lower(yes[2]));
        }
        if same_but_case(s, yes) {
            law_same_but_case(s, yes, 0);
            law_same_but_case(s, yes, 1);
            law_same_but_case(s, yes, 2);
        }
    }
}

/// A file is newer only if it was modified later than the container was made,
/// by a second or more.
pub proof fn law_newer(modified: i64, created: i64)
    ensures
        newer(Some(modified), created) <==> modified > created,
        !newer(None, created),
{
}

/// A file of the project is shown by its way from the project root.
pub proof fn law_shown_from_the_root(root: Seq<Seq<char>>, rest: Seq<Seq<char>>)
    requires
        plain_names(root),
        plain_names(rest),
        root.len() > 0,
        rest.len() > 0,
    ensures
        shown(
            seq!['/'] + joined(root + rest, seq!['/']),
            seq!['/'] + joined(root, seq!['/']),
        ) == joined(rest, seq!['/']),
{
    law_relative_is_the_rest(root, rest);
}

/// A switch of the stack type is named before the files, which all follow.
pub proof fn law_changes(dc: DevcontainerView, existing_compose: bool, files: Seq<Seq<char>>)
    ensures
        existing_compose == (dc.compose_files.len() > 0) ==> changes(dc, existing_compose, files)
            == files,
        existing_compose != (dc.compose_files.len() > 0) ==> changes(
            dc,
            existing_compose,
            files,
        ).len() == files.len() + 1 && changes(dc, existing_compose, files).skip(1) == files,
{
    if existing_compose != (dc.compose_files.len() > 0) {
        assert(changes(dc, existing_compose, files).skip(1) == files);
    }
}

/// The question whether to start names the project, and what it is that does
/// not run; a switch of the stack type is said by both kinds.
pub proof fn law_questions_say_what(dc: DevcontainerView, name: Seq<char>)
    ensures
        dc.name == Some(name) ==> occurs(start_text(dc), name),
        dc.compose_files.len() > 0 ==> occurs(start_text(dc), "compose stack"@),
        dc.compose_files.len() == 0 ==> occurs(start_text(dc), "container"@),
        switch_text(true, false) == "its stack type (compose → container)"@,
        switch_text(false, true) == "its stack type (container → compose)"@,
{
    let a = "\x1b[36mdevcon:\x1b[0m "@;
    let who = match dc.name {
        Some(name) => name,
        None => "this project"@,
    };
    let what = if compose_based(dc) {
        "compose stack"@
    } else {
        "container"@
    };
    let end = " isn't running. Start it? [Y/n] "@;
    lemma_occurs_inside(a, who, " "@ + what + end, who);
    assert(a + who + (" "@ + what + end) == start_text(dc));
    lemma_occurs_inside(a + who + " "@, what, end, what);
    reveal_strlit("its stack type (");
    reveal_strlit("compose");
    reveal_strlit("container");
    reveal_strlit(" → ");
    reveal_strlit(")");
    reveal_strlit("its stack type (compose → container)");
    reveal_strlit("its stack type (container → compose)");
    assert(switch_text(true, false) == "its stack type (compose → container)"@);
    assert(switch_text(false, true) == "its stack type (container → compose)"@);
}

} // verus!

//! A best-effort look into a compose file: which service is the dev container?

use crate::text::{
    chars_of, contains, cut_at, ends_with, index_of, is_space, is_whitespace, lemma_cut_at,
    lemma_trimmed_end, lemma_trimmed_start, lines, lines_of, occurs, same, split_once, stands_at,
    starts_with, trim, trim_end, trim_end_matches, trim_start, trimmed, trimmed_end, trimmed_start,
    without_trailing,
};
use vstd::prelude::*;

verus! {

/// A line with nothing on it, or nothing but a comment.
pub open spec fn says_nothing(line: Seq<char>) -> bool {
    trimmed_end(line).len() == 0 || "#"@.is_prefix_of(trimmed_start(trimmed_end(line)))
}

/// A line that opens a section of the file: one that is not indented.
pub open spec fn is_top_level(line: Seq<char>) -> bool {
    !" "@.is_prefix_of(line) && !"\t"@.is_prefix_of(line)
}

/// A line that opens the section of the services.
pub open spec fn opens_services(line: Seq<char>) -> bool {
    "services:"@.is_prefix_of(trimmed_end(line))
}

/// A line indented by exactly two bytes: two whitespace characters that take
/// one byte each.
pub open spec fn indented_by_two(line: Seq<char>) -> bool {
    &&& line.len() >= 3
    &&& is_space(line[0]) && line[0] < '\u{80}'
    &&& is_space(line[1]) && line[1] < '\u{80}'
    &&& !is_space(line[2])
}

/// A line that opens a service: a key indented by two.
pub open spec fn opens_service(line: Seq<char>) -> bool {
    indented_by_two(line) && ":"@.is_suffix_of(trimmed_end(line))
}

/// The name of the service that a line opens.
pub open spec fn service_name(line: Seq<char>) -> Seq<char> {
    without_trailing(trimmed(trimmed_end(line)), ':')
}

/// Whether the first `i` lines end inside the section of the services.
pub open spec fn in_services(list: Seq<Seq<char>>, i: int) -> bool
    decreases i,
{
    if i <= 0 {
        false
    } else if !says_nothing(list[i - 1]) && is_top_level(list[i - 1]) {
        opens_services(list[i - 1])
    } else {
        in_services(list, i - 1)
    }
}

/// The service inside which the first `i` lines end.
pub open spec fn service_at(list: Seq<Seq<char>>, i: int) -> Option<Seq<char>>
    decreases i,
{
    if i <= 0 {
        None
    } else if says_nothing(list[i - 1]) {
        service_at(list, i - 1)
    } else if is_top_level(list[i - 1]) {
        None
    } else if opens_service(list[i - 1]) {
        Some(service_name(list[i - 1]))
    } else {
        service_at(list, i - 1)
    }
}

/// The number of whitespace characters that a line starts with.
pub open spec fn indent(line: Seq<char>) -> nat
    decreases line.len(),
{
    if line.len() > 0 && is_space(line[0]) {
        1 + indent(line.skip(1))
    } else {
        0
    }
}

/// A line that holds an item of a list.
pub open spec fn is_item(line: Seq<char>) -> bool {
    "-"@.is_prefix_of(trimmed_start(line))
}

/// How far the keys of the service are indented inside which the first `i`
/// lines end: as far as the first line behind the one that opens it.
pub open spec fn keys_indent(list: Seq<Seq<char>>, i: int) -> Option<nat>
    decreases i,
{
    if i <= 0 {
        None
    } else if says_nothing(list[i - 1]) {
        keys_indent(list, i - 1)
    } else if is_top_level(list[i - 1]) || opens_service(list[i - 1]) {
        None
    } else if keys_indent(list, i - 1) is None {
        Some(indent(list[i - 1]))
    } else {
        keys_indent(list, i - 1)
    }
}

/// Line `i` holds a key of its service: it is not indented deeper than the
/// first one, and is no item of a list.
pub open spec fn is_key_line(list: Seq<Seq<char>>, i: int) -> bool {
    match keys_indent(list, i) {
        Some(n) => indent(list[i]) <= n && !is_item(list[i]),
        None => true,
    }
}

/// A line that holds the key `volumes`.
pub open spec fn opens_volumes(line: Seq<char>) -> bool {
    "volumes:"@.is_prefix_of(trimmed_start(line))
}

/// Whether a line behind the first `i` that is no key of the service would
/// stand under the service's key `volumes`.
pub open spec fn in_volumes(list: Seq<Seq<char>>, i: int) -> bool
    decreases i,
{
    if i <= 0 {
        false
    } else if says_nothing(list[i - 1]) {
        in_volumes(list, i - 1)
    } else if is_top_level(list[i - 1]) || opens_service(list[i - 1]) {
        false
    } else if is_key_line(list, i - 1) {
        opens_volumes(list[i - 1])
    } else {
        in_volumes(list, i - 1)
    }
}

/// A text without the dash at its start, if it has one.
pub open spec fn without_dash(s: Seq<char>) -> Seq<char> {
    if "-"@.is_prefix_of(s) {
        s.skip(1)
    } else {
        s
    }
}

/// What stands before the first colon of a mount is the key of its source.
pub open spec fn is_source_key(s: Seq<char>) -> bool {
    let key = trimmed(without_dash(trimmed(s)));
    key == "source"@ || key == "src"@
}

/// A mount, written `source:target` or as one of the keys that make it up,
/// goes into `/workspaces`: a path there stands behind the first colon and is
/// not given as the source, or there is no colon.
pub open spec fn goes_into_workspaces(s: Seq<char>) -> bool {
    let at = index_of(s, ':') as int;
    if at < s.len() {
        !is_source_key(s.take(at)) && occurs(s.skip(at + 1), "/workspaces"@)
    } else {
        occurs(s, "/workspaces"@)
    }
}

/// Line `i` belongs to the key `volumes` of a service, on the line of the key
/// or under it, and names a mount into `/workspaces`.
pub open spec fn mounts_workspace(list: Seq<Seq<char>>, i: int) -> bool {
    &&& !says_nothing(list[i])
    &&& !is_top_level(list[i])
    &&& !opens_service(list[i])
    &&& in_services(list, i)
    &&& service_at(list, i) is Some
    &&& if is_key_line(list, i) {
        opens_volumes(list[i]) && goes_into_workspaces(trimmed_start(list[i]).skip(8))
    } else {
        in_volumes(list, i) && goes_into_workspaces(list[i])
    }
}

/// The service of the first line, from line `i` on, that mounts a workspace.
pub open spec fn first_workspace(list: Seq<Seq<char>>, i: int) -> Option<Seq<char>>
    decreases list.len() - i,
{
    if i >= list.len() {
        None
    } else if mounts_workspace(list, i) {
        service_at(list, i)
    } else {
        first_workspace(list, i + 1)
    }
}

/// The first service of a compose file that mounts into `/workspaces`.
pub open spec fn workspace_service(text: Seq<char>) -> Option<Seq<char>> {
    first_workspace(lines_of(text), 0)
}

/// A line indented by exactly two bytes.
fn has_indent_two(line: &str) -> (r: bool)
    ensures
        r == indented_by_two(line@),
{
    let v = chars_of(line);
    v.len() >= 3 && is_whitespace(v[0]) && v[0] < '\u{80}' && is_whitespace(v[1]) && v[1]
        < '\u{80}' && !is_whitespace(v[2])
}

/// The number of whitespace characters that a line starts with.
fn count_indent(line: &str) -> (r: usize)
    ensures
        r == indent(line@),
{
    let v = chars_of(line);
    let mut n: usize = 0;
    assert(v@.skip(0) == v@);
    while n < v.len() && is_whitespace(v[n])
        invariant
            v@ == line@,
            n <= v.len(),
            indent(line@) == n + indent(line@.skip(n as int)),
        decreases v.len() - n,
    {
        assert(line@.skip(n as int).skip(1) == line@.skip(n + 1));
        n += 1;
    }
    n
}

/// Whether what stands before the first colon of a mount is the key of its
/// source.
fn has_source_key(s: &str) -> (r: bool)
    ensures
        r == is_source_key(s@),
{
    let key = trim(s);
    let bare = if starts_with(key, "-") {
        let n = chars_of(key).len();
        proof {
            reveal_strlit("-");
            assert(key@.skip(1) == key@.subrange(1, n as int));
        }
        trim(key.substring_char(1, n))
    } else {
        trim(key)
    };
    same(bare, "source") || same(bare, "src")
}

/// Whether a mount goes into `/workspaces`.
fn has_workspaces_target(s: &str) -> (r: bool)
    ensures
        r == goes_into_workspaces(s@),
{
    match split_once(s, ':') {
        Some((head, rest)) => !has_source_key(head) && contains(rest, "/workspaces"),
        None => contains(s, "/workspaces"),
    }
}

/// Whether the line of the key `volumes` itself names a mount into
/// `/workspaces`.
fn mounts_inline(line: &str) -> (r: bool)
    ensures
        r == (opens_volumes(line@) && goes_into_workspaces(trimmed_start(line@).skip(8))),
{
    let key = trim_start(line);
    if !starts_with(key, "volumes:") {
        return false;
    }
    let n = chars_of(key).len();
    proof {
        reveal_strlit("volumes:");
        assert(key@.skip(8) == key@.subrange(8, n as int));
    }
    has_workspaces_target(key.substring_char(8, n))
}

/// Scan a compose file's text for the first service that mounts into
/// `/workspaces`. Indentation-based: services are 2-space keys under
/// `services:`, and the mounts of one stand under its key `volumes:`.
pub fn scan_workspace_service(text: &str) -> (r: Option<String>)
    ensures
        r.deep_view() == workspace_service(text@),
{
    let all = lines(text);
    let ghost list = all.deep_view();
    let mut inside: bool = false;
    let mut current: Option<String> = None;
    let mut keys: Option<usize> = None;
    let mut volumes: bool = false;
    let mut i: usize = 0;
    while i < all.len()
        invariant
            list == all.deep_view(),
            list == lines_of(text@),
            i <= all.len(),
            inside == in_services(list, i as int),
            inside ==> {
                &&& current.deep_view() == service_at(list, i as int)
                &&& volumes == in_volumes(list, i as int)
                &&& match keys {
                    Some(n) => keys_indent(list, i as int) == Some(n as nat),
                    None => keys_indent(list, i as int) is None,
                }
            },
            first_workspace(list, 0) == first_workspace(list, i as int),
        decreases all.len() - i,
    {
        let line = all[i];
        assert(list[i as int] == line@);
        let kept = trim_end(line);
        if kept.is_empty() || starts_with(trim_start(kept), "#") {
            assert(says_nothing(line@));
        } else if !starts_with(line, " ") && !starts_with(line, "\t") {
            inside = starts_with(kept, "services:");
            current = None;
            keys = None;
            volumes = false;
        } else if inside {
            if has_indent_two(line) && ends_with(kept, ":") {
                current = Some(trim_end_matches(trim(kept), ':').to_owned());
                keys = None;
                volumes = false;
            } else {
                let depth = count_indent(line);
                let is_key = match keys {
                    Some(n) => depth <= n && !starts_with(trim_start(line), "-"),
                    None => true,
                };
                assert(is_key == is_key_line(list, i as int));
                let mounts = if is_key {
                    mounts_inline(line)
                } else {
                    volumes && has_workspaces_target(line)
                };
                if current.is_some() && mounts {
                    assert(mounts_workspace(list, i as int));
                    return current;
                }
                if is_key {
                    volumes = starts_with(trim_start(line), "volumes:");
                }
                if keys.is_none() {
                    keys = Some(depth);
                }
            }
        }
        i += 1;
    }
    None
}

// ---------------------------------------------------------------------------
// Laws
// ---------------------------------------------------------------------------

/// A line holds the key `volumes`, behind any blanks.
pub open spec fn starts_volumes(line: Seq<char>) -> bool {
    exists|n: int|
        0 <= n <= line.len() && (forall|k: int| 0 <= k < n ==> is_space(#[trigger] line[k]))
            && #[trigger] stands_at(line, "volumes:"@, n)
}

proof fn lemma_starts_volumes(line: Seq<char>)
    ensures
        opens_volumes(line) ==> starts_volumes(line),
{
    reveal_strlit("volumes:");
    lemma_trimmed_start(line);
    let t = trimmed_start(line);
    let n = line.len() - t.len();
    if opens_volumes(line) {
        assert(t.subrange(0, 8) == "volumes:"@);
        assert(line.subrange(n, n + 8) == t.subrange(0, 8));
        assert(stands_at(line, "volumes:"@, n));
    }
}

proof fn lemma_no_volumes(list: Seq<Seq<char>>, i: int)
    requires
        0 <= i <= list.len(),
        forall|j: int| 0 <= j < list.len() ==> !starts_volumes(#[trigger] list[j]),
    ensures
        !in_volumes(list, i),
    decreases i,
{
    if i > 0 {
        lemma_no_volumes(list, i - 1);
        lemma_starts_volumes(list[i - 1]);
        assert(!starts_volumes(list[i - 1]));
    }
}

/// The line that decides, if any does.
proof fn lemma_first_workspace(list: Seq<Seq<char>>, i: int)
    requires
        0 <= i <= list.len(),
    ensures
        match first_workspace(list, i) {
            Some(s) => exists|k: int|
                i <= k < list.len() && #[trigger] mounts_workspace(list, k) && service_at(list, k)
                    == Some(s) && forall|j: int| i <= j < k ==> !#[trigger] mounts_workspace(list, j),
            None => forall|j: int| i <= j < list.len() ==> !#[trigger] mounts_workspace(list, j),
        },
    decreases list.len() - i,
{
    if i < list.len() {
        if mounts_workspace(list, i) {
            assert(mounts_workspace(list, i));
        } else {
            lemma_first_workspace(list, i + 1);
        }
    }
}

/// To name `/workspaces` is not to mount it: a file without a key `volumes`
/// gives no service, and neither does one that does not name `/workspaces`.
pub proof fn law_no_mount_no_service(text: Seq<char>)
    requires
        (forall|j: int| 0 <= j < lines_of(text).len() ==> !starts_volumes(#[trigger] lines_of(text)[j]))
            || (forall|j: int|
            0 <= j < lines_of(text).len() ==> !occurs(#[trigger] lines_of(text)[j], "/workspaces"@)),
    ensures
        workspace_service(text) is None,
{
    let list = lines_of(text);
    lemma_first_workspace(list, 0);
    if workspace_service(text) is Some {
        let k = choose|k: int| 0 <= k < list.len() && #[trigger] mounts_workspace(list, k);
        lemma_starts_volumes(list[k]);
        lemma_mount_names(list, k);
        if forall|j: int| 0 <= j < list.len() ==> !starts_volumes(#[trigger] list[j]) {
            lemma_no_volumes(list, k);
            assert(!starts_volumes(list[k]));
        } else {
            assert(!occurs(list[k], "/workspaces"@));
        }
    }
}

/// A mount into `/workspaces` names it.
proof fn lemma_mount_names(list: Seq<Seq<char>>, k: int)
    requires
        mounts_workspace(list, k),
    ensures
        occurs(list[k], "/workspaces"@),
{
    let line = list[k];
    let part = "/workspaces"@;
    if is_key_line(list, k) {
        reveal_strlit("volumes:");
        lemma_trimmed_start(line);
        let t = trimmed_start(line);
        assert(t.len() >= 8);
        let n = line.len() - t.len();
        let v = t.skip(8);
        assert(v == line.skip(n + 8));
        lemma_target_names(v);
        lemma_occurs_in_rest(line, n + 8, part);
    } else {
        lemma_target_names(line);
    }
}

proof fn lemma_target_names(s: Seq<char>)
    requires
        goes_into_workspaces(s),
    ensures
        occurs(s, "/workspaces"@),
{
    let at = index_of(s, ':') as int;
    if at < s.len() {
        lemma_occurs_in_rest(s, at + 1, "/workspaces"@);
    }
}

proof fn lemma_occurs_in_rest(s: Seq<char>, n: int, part: Seq<char>)
    requires
        0 <= n <= s.len(),
        occurs(s.skip(n), part),
    ensures
        occurs(s, part),
{
    let at = choose|at: int| stands_at(s.skip(n), part, at);
    assert(s.subrange(n + at, n + at + part.len()) == s.skip(n).subrange(at, at + part.len()));
    assert(stands_at(s, part, n + at));
}

/// A line that names a service: two blanks, the name, and a colon.
pub open spec fn service_line(name: Seq<char>) -> Seq<char> {
    seq![' ', ' '] + name + seq![':']
}

/// A name that a service can have: it begins and ends with neither blank nor
/// colon, and is no comment.
pub open spec fn service_like(name: Seq<char>) -> bool {
    &&& name.len() > 0
    &&& !is_space(name[0]) && name[0] != '#'
    &&& !is_space(name.last()) && name.last() != ':'
}

/// What a text is trimmed of, where it begins with blanks and ends without.
proof fn lemma_blanks_before(n: int, rest: Seq<char>)
    requires
        0 <= n,
        rest.len() > 0,
        !is_space(rest[0]),
        !is_space(rest.last()),
    ensures
        ({
            let s = Seq::new(n as nat, |i: int| ' ') + rest;
            &&& trimmed_end(s) == s
            &&& trimmed_start(s) == rest
            &&& trimmed(s) == rest
            &&& indent(s) == n
        }),
    decreases n,
{
    let blanks = Seq::new(n as nat, |i: int| ' ');
    let s = blanks + rest;
    assert(s.last() == rest.last());
    if n > 0 {
        lemma_blanks_before(n - 1, rest);
        assert(s[0] == ' ');
        assert(s.skip(1) == Seq::new((n - 1) as nat, |i: int| ' ') + rest);
    } else {
        assert(s == rest);
    }
    assert(trimmed_end(rest) == rest);
}

proof fn lemma_service_line(name: Seq<char>)
    requires
        service_like(name),
    ensures
        ({
            let line = service_line(name);
            &&& !says_nothing(line)
            &&& !is_top_level(line)
            &&& opens_service(line)
            &&& service_name(line) == name
        }),
{
    reveal_strlit("#");
    reveal_strlit(" ");
    reveal_strlit(":");
    let line = service_line(name);
    let rest = name + seq![':'];
    assert(line == Seq::new(2, |i: int| ' ') + rest);
    lemma_blanks_before(2, rest);
    assert(rest.subrange(0, 1)[0] == name[0]);
    assert("#"@[0] == '#');
    assert(line.subrange(0, 1) == " "@);
    assert(line[2] == name[0]);
    assert(line.subrange(line.len() - 1, line.len() as int) == ":"@);
    assert(rest.drop_last() == name);
    assert(rest.last() == ':');
    assert(without_trailing(name, ':') == name);
    assert(without_trailing(rest, ':') == name);
}

/// A service that has a mount into `/workspaces` under its key `volumes` is
/// found, and is found before any that comes later.
#[verifier::rlimit(60)]
pub proof fn law_mounting_service_is_found(
    name: Seq<char>,
    source: Seq<char>,
    target: Seq<char>,
    more: Seq<Seq<char>>,
)
    requires
        service_like(name),
        source.len() > 0,
        !source.contains(':'),
        !is_space(source[0]) && source[0] != '-',
        !is_space(source.last()),
        source != "source"@,
        source != "src"@,
        target.len() > 0 ==> !is_space(target.last()),
    ensures
        first_workspace(
            seq![
                "services:"@,
                service_line(name),
                "    volumes:"@,
                "      - "@ + source + ":/workspaces"@ + target,
            ] + more,
            0,
        ) == Some(name),
{
    let mount = "      - "@ + source + ":/workspaces"@ + target;
    let list = seq!["services:"@, service_line(name), "    volumes:"@, mount] + more;
    lemma_service_line(name);
    lemma_services_line();
    lemma_volumes_line();
    lemma_mount_line(source, target);
    assert(list[0] == "services:"@);
    assert(list[1] == service_line(name));
    assert(list[2] == "    volumes:"@);
    assert(list[3] == mount);
    assert(!in_services(list, 0));
    assert(in_services(list, 1));
    assert(in_services(list, 2));
    assert(in_services(list, 3));
    assert(service_at(list, 0) is None);
    assert(service_at(list, 1) is None);
    assert(service_at(list, 2) == Some(name));
    assert(service_at(list, 3) == Some(name));
    assert(keys_indent(list, 2) is None);
    assert(keys_indent(list, 3) == Some(4nat));
    assert(is_key_line(list, 2));
    assert(!is_key_line(list, 3));
    assert(in_volumes(list, 3));
    assert(!mounts_workspace(list, 0));
    assert(!mounts_workspace(list, 1));
    assert(!mounts_workspace(list, 2));
    assert(mounts_workspace(list, 3));
    reveal_with_fuel(first_workspace, 5);
}

proof fn lemma_services_line()
    ensures
        !says_nothing("services:"@),
        is_top_level("services:"@),
        opens_services("services:"@),
{
    reveal_strlit("services:");
    reveal_strlit("#");
    reveal_strlit(" ");
    reveal_strlit("\t");
    let s = "services:"@;
    assert(s == Seq::new(0, |i: int| ' ') + s);
    lemma_blanks_before(0, s);
    assert(s.subrange(0, 1)[0] == 's');
    assert("#"@[0] == '#');
    assert(" "@[0] == ' ');
    assert("\t"@[0] == '\t');
    assert(s.subrange(0, 9) == s);
}

proof fn lemma_volumes_line()
    ensures
        ({
            let line = "    volumes:"@;
            &&& !says_nothing(line)
            &&& !is_top_level(line)
            &&& !opens_service(line)
            &&& opens_volumes(line)
            &&& indent(line) == 4
            &&& !goes_into_workspaces(trimmed_start(line).skip(8))
        }),
{
    reveal_strlit("    volumes:");
    reveal_strlit("volumes:");
    reveal_strlit("/workspaces");
    reveal_strlit("#");
    reveal_strlit(" ");
    let line = "    volumes:"@;
    let v = "volumes:"@;
    assert(line == Seq::new(4, |i: int| ' ') + v);
    lemma_blanks_before(4, v);
    assert(v.subrange(0, 1)[0] == 'v');
    assert("#"@[0] == '#');
    assert(line.subrange(0, 1) == " "@);
    assert(line[2] == ' ');
    assert(v.subrange(0, 8) == v);
    assert(v.skip(8) == Seq::<char>::empty());
    assert(!occurs(Seq::<char>::empty(), "/workspaces"@));
}

proof fn lemma_mount_line(source: Seq<char>, target: Seq<char>)
    requires
        source.len() > 0,
        !source.contains(':'),
        !is_space(source[0]) && source[0] != '-',
        !is_space(source.last()),
        source != "source"@,
        source != "src"@,
        target.len() > 0 ==> !is_space(target.last()),
    ensures
        ({
            let line = "      - "@ + source + ":/workspaces"@ + target;
            &&& !says_nothing(line)
            &&& !is_top_level(line)
            &&& !opens_service(line)
            &&& indent(line) == 6
            &&& is_item(line)
            &&& goes_into_workspaces(line)
        }),
{
    reveal_strlit("      - ");
    reveal_strlit(":/workspaces");
    reveal_strlit("/workspaces");
    reveal_strlit("#");
    reveal_strlit("-");
    reveal_strlit(" ");
    let line = "      - "@ + source + ":/workspaces"@ + target;
    let rest = seq!['-', ' '] + source + ":/workspaces"@ + target;
    assert(line == Seq::new(6, |i: int| ' ') + rest);
    assert(rest.last() == if target.len() > 0 {
        target.last()
    } else {
        's'
    });
    lemma_blanks_before(6, rest);
    assert(rest.subrange(0, 1)[0] == '-');
    assert("#"@[0] == '#');
    assert(rest.subrange(0, 1) == "-"@);
    assert(line.subrange(0, 1) == " "@);
    assert(line[2] == ' ');
    // The first colon stands behind the source.
    let head = "      - "@ + source;
    let tail = "/workspaces"@ + target;
    assert(line == head + seq![':'] + tail);
    assert(!head.contains(':')) by {
        if head.contains(':') {
            let i = head.index_of(':');
            if i >= 8 {
                assert(head[i] == source[i - 8]);
                assert(source.contains(source[i - 8]));
            }
        }
    }
    assert(cut_at(line, ':', head, tail));
    lemma_cut_at(line, ':', head, tail);
    assert(tail.subrange(0, 11) == "/workspaces"@);
    assert(stands_at(tail, "/workspaces"@, 0));
    // What stands before it is the source itself.
    let dashed = seq!['-', ' '] + source;
    assert(head == Seq::new(6, |i: int| ' ') + dashed);
    lemma_blanks_before(6, dashed);
    assert(dashed.subrange(0, 1) == "-"@);
    assert(dashed.skip(1) == Seq::new(1, |i: int| ' ') + source);
    lemma_blanks_before(1, source);
}

/// The service that is found is named by a line of the file, two blanks in,
/// which stands before the line that names `/workspaces`; no other service is
/// named in between.
pub proof fn law_found_service_is_named(text: Seq<char>, s: Seq<char>)
    requires
        workspace_service(text) == Some(s),
    ensures
        exists|k: int, i: int|
            0 <= k < i < lines_of(text).len() && #[trigger] stands_at(lines_of(text)[k], s, 2)
                && #[trigger] occurs(lines_of(text)[i], "/workspaces"@) && indented_by_two(
                lines_of(text)[k],
            ) && forall|j: int|
                k < j < i ==> !opens_service(#[trigger] lines_of(text)[j]) || says_nothing(
                    lines_of(text)[j],
                ),
{
    let list = lines_of(text);
    lemma_first_workspace(list, 0);
    let i = choose|i: int|
        0 <= i < list.len() && #[trigger] mounts_workspace(list, i) && service_at(list, i) == Some(
            s,
        );
    lemma_mount_names(list, i);
    lemma_service_at(list, i, s);
    let k = choose|k: int|
        0 <= k < i && opens_service(#[trigger] list[k]) && s == service_name(list[k]) && forall|
            j: int,
        |
            k < j < i ==> !opens_service(#[trigger] list[j]) || says_nothing(list[j]);
    let line = list[k];
    let t = trimmed_end(line);
    lemma_trimmed_end(line);
    lemma_trimmed_start(t);
    lemma_trimmed_end(trimmed_start(t));
    lemma_without_trailing(trimmed(t), ':');
    assert(t.len() > 2) by {
        if t.len() <= 2 {
            assert(is_space(line[2]));
        }
    }
    let u = trimmed_start(t);
    assert(t.len() - u.len() == 2) by {
        let n = t.len() - u.len();
        if n > 2 {
            assert(is_space(t[2]));
        }
        if n < 2 {
            assert(u[0] == t[n as int]);
            assert(t[n as int] == line[n as int]);
        }
    }
    assert(line.subrange(2, 2 + s.len() as int) == s) by {
        assert forall|x: int| 0 <= x < s.len() implies line[2 + x] == s[x] by {
            assert(s[x] == trimmed(t)[x]);
            assert(trimmed(t)[x] == u[x]);
            assert(u[x] == t[2 + x]);
        }
    }
    assert(stands_at(line, s, 2));
}

proof fn lemma_without_trailing(s: Seq<char>, c: char)
    ensures
        without_trailing(s, c).len() <= s.len(),
        without_trailing(s, c) == s.take(without_trailing(s, c).len() as int),
    decreases s.len(),
{
    if s.len() > 0 && s.last() == c {
        lemma_without_trailing(s.drop_last(), c);
        let n = without_trailing(s, c).len() as int;
        assert(s.drop_last().take(n) == s.take(n));
    }
}

proof fn lemma_service_at(list: Seq<Seq<char>>, i: int, s: Seq<char>)
    requires
        0 <= i <= list.len(),
        service_at(list, i) == Some(s),
    ensures
        exists|k: int|
            0 <= k < i && opens_service(#[trigger] list[k]) && s == service_name(list[k]) && forall|
                j: int,
            |
                k < j < i ==> !opens_service(#[trigger] list[j]) || says_nothing(list[j]),
    decreases i,
{
    let line = list[i - 1];
    if !says_nothing(line) && !is_top_level(line) && opens_service(line) {
        assert(opens_service(list[i - 1]));
    } else {
        lemma_service_at(list, i - 1, s);
        let k = choose|k: int|
            0 <= k < i - 1 && opens_service(#[trigger] list[k]) && s == service_name(list[k])
                && forall|j: int|
                k < j < i - 1 ==> !opens_service(#[trigger] list[j]) || says_nothing(list[j]);
        assert(opens_service(list[k]));
        assert forall|j: int| k < j < i implies !opens_service(#[trigger] list[j]) || says_nothing(
            list[j],
        ) by {}
    }
}

/// What is mounted counts by where it goes to: a source in `/workspaces` that
/// goes elsewhere is none, and neither is the source of a mount that is given
/// key by key.
pub proof fn law_source_is_no_target(source: Seq<char>, target: Seq<char>)
    requires
        !source.contains(':'),
        !occurs(target, "/workspaces"@) || trimmed(source) == "source"@ || trimmed(source)
            == "src"@ || trimmed(source) == "- source"@ || trimmed(source) == "- src"@,
    ensures
        !goes_into_workspaces(source + seq![':'] + target),
{
    let s = source + seq![':'] + target;
    assert(cut_at(s, ':', source, target));
    lemma_cut_at(s, ':', source, target);
    if occurs(target, "/workspaces"@) {
        reveal_strlit("-");
        reveal_strlit("source");
        reveal_strlit("src");
        reveal_strlit("- source");
        reveal_strlit("- src");
        let key = trimmed(source);
        if key == "source"@ || key == "src"@ {
            assert(!"-"@.is_prefix_of(key)) by {
                assert(key[0] == 's');
                assert("-"@[0] == '-');
                if "-"@.is_prefix_of(key) {
                    assert(key.subrange(0, 1)[0] == key[0]);
                }
            }
            assert(key == Seq::new(0, |i: int| ' ') + key);
            lemma_blanks_before(0, key);
        } else {
            let bare = if key == "- source"@ {
                "source"@
            } else {
                "src"@
            };
            assert(key.subrange(0, 1) == "-"@);
            assert(key.skip(1) == Seq::new(1, |i: int| ' ') + bare);
            lemma_blanks_before(1, bare);
        }
        assert(is_source_key(source));
    }
}

proof fn lemma_no_services(list: Seq<Seq<char>>, i: int)
    requires
        0 <= i <= list.len(),
        forall|j: int| 0 <= j < list.len() ==> !stands_at(#[trigger] list[j], "services:"@, 0),
    ensures
        !in_services(list, i),
    decreases i,
{
    if i > 0 {
        lemma_no_services(list, i - 1);
        let line = list[i - 1];
        assert(!stands_at(list[i - 1], "services:"@, 0));
        lemma_trimmed_end(line);
        if opens_services(line) {
            reveal_strlit("services:");
            let t = trimmed_end(line);
            assert(t.subrange(0, 9) == "services:"@);
            assert(line.subrange(0, 9) == t.subrange(0, 9));
            assert(stands_at(line, "services:"@, 0));
        }
    }
}

/// What stands outside the section of the services is none: a file without
/// that section gives no service.
pub proof fn law_services_have_their_section(text: Seq<char>)
    requires
        forall|j: int|
            0 <= j < lines_of(text).len() ==> !stands_at(
                #[trigger] lines_of(text)[j],
                "services:"@,
                0,
            ),
    ensures
        workspace_service(text) is None,
{
    let list = lines_of(text);
    lemma_first_workspace(list, 0);
    if workspace_service(text) is Some {
        let k = choose|k: int| 0 <= k < list.len() && #[trigger] mounts_workspace(list, k);
        lemma_no_services(list, k);
    }
}

} // verus!

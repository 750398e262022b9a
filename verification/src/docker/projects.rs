//! The dev-container projects of this host, gathered from its containers.

use super::{captured_text, run_docker_text, Error};
use crate::request::{strings, Outcome};
use crate::table::{ordered, Table};
use crate::text::{
    before, cut_at, eq_ignore_ascii_case, first_pieces, is_before, law_first_pieces, law_lines,
    law_pieces_in_parts, lemma_before_irreflexive, lemma_before_total, lemma_before_transitive,
    lemma_filter_map_one, lemma_filter_map_parts, lemma_index_cuts, lines, lines_of, pieces, same,
    same_but_case, split, splitn, trim, trimmed,
};
use vstd::prelude::*;

verus! {

/// What `docker` prints for a label that is not there.
pub const NO_VALUE: &'static str = "<no value>";

/// A dev-container project discovered on this host by scanning containers.
/// One project may span several containers (a compose stack: app + sidecars).
#[derive(Debug, Clone, PartialEq, Eq)]
pub struct Project {
    /// Stable key: the host project path (`devcontainer.local_folder`) when
    /// known, else the compose project name. Human-facing and used for sorting.
    pub key: String,
    /// A friendly display name (the path's basename, or the compose project).
    pub name: String,
    /// Host directory the project lives in: `devcontainer.local_folder` where
    /// a container has it, else the compose `working_dir` of the stack.
    pub path: String,
    /// Kind of stack, for display: `"compose"` or `"container"`.
    pub kind: &'static str,
    /// True if at least one of the project's containers is running.
    pub running: bool,
    /// How many containers make up this project (all states).
    pub container_count: usize,
    /// True if any container carries devcon's own marker label.
    pub devcon_managed: bool,
}

/// A [`Project`] as plain values.
#[verifier::ext_equal]
pub struct ProjectView {
    pub key: Seq<char>,
    pub name: Seq<char>,
    pub path: Seq<char>,
    pub kind: Seq<char>,
    pub running: bool,
    pub container_count: nat,
    pub devcon_managed: bool,
}

impl DeepView for Project {
    type V = ProjectView;

    open spec fn deep_view(&self) -> ProjectView {
        ProjectView {
            key: self.key@,
            name: self.name@,
            path: self.path@,
            kind: self.kind@,
            running: self.running,
            container_count: self.container_count as nat,
            devcon_managed: self.devcon_managed,
        }
    }
}

/// One raw row from the project-listing `docker ps -a` query.
pub struct ProjectRow {
    /// `devcontainer.local_folder`.
    pub local_folder: String,
    /// `com.docker.compose.project`.
    pub compose_project: String,
    /// The container's state.
    pub state: String,
    /// Whether devcon's own marker label is set.
    pub devcon_marker: bool,
    /// `com.docker.compose.project.working_dir`, where a compose stack was
    /// launched from. Empty for non-compose containers.
    pub working_dir: String,
}

/// A [`ProjectRow`] as plain values.
#[verifier::ext_equal]
pub struct ProjectRowView {
    pub local_folder: Seq<char>,
    pub compose_project: Seq<char>,
    pub state: Seq<char>,
    pub devcon_marker: bool,
    pub working_dir: Seq<char>,
}

impl DeepView for ProjectRow {
    type V = ProjectRowView;

    open spec fn deep_view(&self) -> ProjectRowView {
        ProjectRowView {
            local_folder: self.local_folder@,
            compose_project: self.compose_project@,
            state: self.state@,
            devcon_marker: self.devcon_marker,
            working_dir: self.working_dir@,
        }
    }
}

// ---------------------------------------------------------------------------
// One row
// ---------------------------------------------------------------------------

/// The `i`-th field of a row, trimmed; empty where the row has fewer.
pub open spec fn field(fields: Seq<Seq<char>>, i: int) -> Seq<char> {
    if i < fields.len() {
        trimmed(fields[i])
    } else {
        seq![]
    }
}

/// What a line of the project listing says; nothing if all its fields are
/// blank.
pub open spec fn project_row(line: Seq<char>) -> Option<ProjectRowView> {
    let f = first_pieces(line, '\t', 5);
    if forall|i: int| 0 <= i < f.len() ==> trimmed(#[trigger] f[i]).len() == 0 {
        None
    } else {
        Some(
            ProjectRowView {
                local_folder: field(f, 0),
                compose_project: field(f, 1),
                state: field(f, 2),
                devcon_marker: field(f, 3).len() > 0 && field(f, 3) != NO_VALUE@,
                working_dir: if field(f, 4) == NO_VALUE@ {
                    seq![]
                } else {
                    field(f, 4)
                },
            },
        )
    }
}

/// The `i`-th field of a row, trimmed; empty where the row has fewer.
fn field_at(fields: &Vec<&str>, i: usize) -> (r: String)
    ensures
        r@ == field(fields.deep_view(), i as int),
{
    if i < fields.len() {
        trim(fields[i]).to_owned()
    } else {
        String::new()
    }
}

/// Parse one tab-separated project-listing row. Returns `None` for blank
/// lines.
pub fn parse_project_row(line: &str) -> (r: Option<ProjectRow>)
    ensures
        r.deep_view() == project_row(line@),
{
    let c = splitn(line, 5, '\t');
    let ghost f = first_pieces(line@, '\t', 5);
    let mut blank: bool = true;
    let mut i: usize = 0;
    while i < c.len()
        invariant
            f == c.deep_view(),
            i <= c.len(),
            blank == (forall|j: int| 0 <= j < i ==> trimmed(#[trigger] f[j]).len() == 0),
        decreases c.len() - i,
    {
        assert(f[i as int] == c@[i as int]@);
        if !trim(c[i]).is_empty() {
            blank = false;
        }
        i += 1;
    }
    if blank {
        return None;
    }
    let marker = field_at(&c, 3);
    let working_dir = field_at(&c, 4);
    let row = ProjectRow {
        local_folder: field_at(&c, 0),
        compose_project: field_at(&c, 1),
        state: field_at(&c, 2),
        devcon_marker: !marker.as_str().is_empty() && !same(marker.as_str(), NO_VALUE),
        working_dir: if same(working_dir.as_str(), NO_VALUE) {
            String::new()
        } else {
            working_dir
        },
    };
    assert(row.deep_view() == project_row(line@)->Some_0);
    Some(row)
}

// ---------------------------------------------------------------------------
// Groups
// ---------------------------------------------------------------------------

/// A row that has something to be grouped by.
pub open spec fn keyed(r: ProjectRowView) -> bool {
    r.local_folder.len() > 0 || r.compose_project.len() > 0
}

/// What a row is grouped by: its compose project, so that all of a stack's
/// containers come together, or else its project path.
pub open spec fn id_of(r: ProjectRowView) -> Seq<char> {
    if r.compose_project.len() > 0 {
        r.compose_project
    } else {
        r.local_folder
    }
}

/// The rows grouped under a key, in order.
pub open spec fn group(rows: Seq<ProjectRowView>, key: Seq<char>) -> Seq<ProjectRowView> {
    rows.filter(|r: ProjectRowView| keyed(r) && id_of(r) == key)
}

/// The last of a path's pieces that is not empty; the path where there is
/// none.
pub open spec fn last_piece(path: Seq<char>) -> Seq<char> {
    last_filled(pieces(path, '/'), path)
}

/// The last text of a list that is not empty, or else `default`.
pub open spec fn last_filled(list: Seq<Seq<char>>, default: Seq<char>) -> Seq<char>
    decreases list.len(),
{
    if list.len() == 0 {
        default
    } else if list.last().len() > 0 {
        list.last()
    } else {
        last_filled(list.drop_last(), default)
    }
}

/// The project path that the last row to have one gives.
pub open spec fn last_folder(g: Seq<ProjectRowView>) -> Option<Seq<char>>
    decreases g.len(),
{
    if g.len() == 0 {
        None
    } else if g.last().local_folder.len() > 0 {
        Some(g.last().local_folder)
    } else {
        last_folder(g.drop_last())
    }
}

/// The launch directory that the first row to have one gives; empty where
/// none has.
pub open spec fn first_working_dir(g: Seq<ProjectRowView>) -> Seq<char>
    decreases g.len(),
{
    if g.len() == 0 {
        seq![]
    } else if first_working_dir(g.drop_last()).len() > 0 {
        first_working_dir(g.drop_last())
    } else {
        g.last().working_dir
    }
}

/// A row of a container that is running.
pub open spec fn row_running(r: ProjectRowView) -> bool {
    same_but_case(r.state, "running"@)
}

/// A row that shows a dev container.
pub open spec fn row_is_dev(r: ProjectRowView) -> bool {
    r.local_folder.len() > 0 || r.devcon_marker
}

/// The project that the rows `g`, grouped under `id`, make up.
pub open spec fn project_of(id: Seq<char>, g: Seq<ProjectRowView>) -> ProjectView {
    ProjectView {
        key: match last_folder(g) {
            Some(folder) => folder,
            None => id,
        },
        name: match last_folder(g) {
            Some(folder) => last_piece(folder),
            None => id,
        },
        path: match last_folder(g) {
            Some(folder) => folder,
            None => first_working_dir(g),
        },
        kind: if g[0].compose_project.len() > 0 {
            "compose"@
        } else {
            "container"@
        },
        running: exists|i: int| 0 <= i < g.len() && row_running(#[trigger] g[i]),
        container_count: g.len(),
        devcon_managed: exists|i: int| 0 <= i < g.len() && (#[trigger] g[i]).devcon_marker,
    }
}

/// A group with a dev container among its rows.
pub open spec fn is_dev(g: Seq<ProjectRowView>) -> bool {
    exists|i: int| 0 <= i < g.len() && row_is_dev(#[trigger] g[i])
}

/// A group is listed if there are rows in it, and they show a dev container or
/// all projects are asked for.
pub open spec fn listed(rows: Seq<ProjectRowView>, id: Seq<char>, all: bool) -> bool {
    group(rows, id).len() > 0 && (all || is_dev(group(rows, id)))
}

/// The project that the group of an id makes up.
pub open spec fn project(rows: Seq<ProjectRowView>, id: Seq<char>) -> ProjectView {
    project_of(id, group(rows, id))
}

/// One group is listed before another: by the keys of their projects, and by
/// what they are grouped by where two projects have the same key.
pub open spec fn comes_before(rows: Seq<ProjectRowView>, a: Seq<char>, b: Seq<char>) -> bool {
    let p = project(rows, a).key;
    let q = project(rows, b).key;
    before(p, q) || (p == q && before(a, b))
}

/// Groups stand in the order of the list.
pub open spec fn in_order(ids: Seq<Seq<char>>, rows: Seq<ProjectRowView>) -> bool {
    forall|i: int, j: int|
        0 <= i < j < ids.len() ==> comes_before(rows, #[trigger] ids[i], #[trigger] ids[j])
}

/// The listed groups, in order.
pub open spec fn is_index(ids: Seq<Seq<char>>, rows: Seq<ProjectRowView>, all: bool) -> bool {
    &&& in_order(ids, rows)
    &&& forall|id: Seq<char>| #[trigger] listed(rows, id, all) <==> ids.contains(id)
}

/// The projects of groups.
pub open spec fn projects(rows: Seq<ProjectRowView>, ids: Seq<Seq<char>>) -> Seq<ProjectView> {
    ids.map_values(|id: Seq<char>| project(rows, id))
}

/// The list of projects that rows make up: one for each listed group, in the
/// order of their keys.
pub open spec fn is_listing(list: Seq<ProjectView>, rows: Seq<ProjectRowView>, all: bool) -> bool {
    exists|ids: Seq<Seq<char>>| #[trigger]
        is_index(ids, rows, all) && list == projects(rows, ids)
}

/// One more row at the end goes to the end of its own group.
proof fn lemma_group_push(rows: Seq<ProjectRowView>, r: ProjectRowView, key: Seq<char>)
    ensures
        group(rows.push(r), key) == if keyed(r) && id_of(r) == key {
            group(rows, key).push(r)
        } else {
            group(rows, key)
        },
{
    let pred = |x: ProjectRowView| keyed(x) && id_of(x) == key;
    rows.lemma_filter_push(r, pred);
}

/// What a group of rows comes to so far.
struct Group {
    project: Project,
    /// A row of the group shows a dev container.
    dev: bool,
}

impl Group {
    /// The group stands for the rows `g` under `key`.
    spec fn stands_for(&self, key: Seq<char>, g: Seq<ProjectRowView>) -> bool {
        &&& g.len() > 0
        &&& self.project.deep_view() == project_of(key, g)
        &&& self.dev == is_dev(g)
    }
}

/// The last of a path's pieces that is not empty; the path where there is
/// none.
fn basename(path: &str) -> (r: String)
    ensures
        r@ == last_piece(path@),
{
    let parts = split(path, '/');
    let mut n: usize = parts.len();
    let ghost list = parts.deep_view();
    assert(list.take(n as int) == list);
    while n > 0
        invariant
            list == parts.deep_view(),
            list == pieces(path@, '/'),
            n <= parts.len(),
            last_filled(list, path@) == last_filled(list.take(n as int), path@),
        decreases n,
    {
        assert(list[n - 1] == parts@[n - 1]@);
        if !parts[n - 1].is_empty() {
            return parts[n - 1].to_owned();
        }
        assert(list.take(n as int).drop_last() == list.take(n - 1));
        n -= 1;
    }
    path.to_owned()
}

/// A running container, by its state.
fn is_running(state: &str) -> (r: bool)
    ensures
        r == same_but_case(state@, "running"@),
{
    eq_ignore_ascii_case(state, "running")
}

/// The group of a first row.
fn first_of_group(r: &ProjectRow) -> (g: Group)
    requires
        keyed(r.deep_view()),
    ensures
        g.stands_for(id_of(r.deep_view()), seq![r.deep_view()]),
{
    let has_folder: bool = !r.local_folder.as_str().is_empty();
    let is_compose: bool = !r.compose_project.as_str().is_empty();
    let key = if has_folder {
        r.local_folder.clone()
    } else {
        r.compose_project.clone()
    };
    let name = if has_folder {
        basename(r.local_folder.as_str())
    } else {
        r.compose_project.clone()
    };
    let path = if has_folder {
        r.local_folder.clone()
    } else {
        r.working_dir.clone()
    };
    let kind = if is_compose {
        "compose"
    } else {
        "container"
    };
    let g = Group {
        project: Project {
            key,
            name,
            path,
            kind,
            running: is_running(r.state.as_str()),
            container_count: 1,
            devcon_managed: r.devcon_marker,
        },
        dev: has_folder || r.devcon_marker,
    };
    proof {
        let rows = seq![r.deep_view()];
        assert(rows[0] == r.deep_view());
        assert(rows.drop_last() == Seq::<ProjectRowView>::empty());
        assert(first_working_dir(rows.drop_last()) == Seq::<char>::empty());
        assert(last_folder(rows.drop_last()) is None);
        if g.dev {
            assert(row_is_dev(rows[0]));
        }
        assert(g.project.deep_view() == project_of(id_of(r.deep_view()), rows));
    }
    g
}

/// The group with one more row.
fn next_of_group(old_group: &Group, r: &ProjectRow, Ghost(rows): Ghost<Seq<ProjectRowView>>) -> (g:
    Group)
    requires
        keyed(r.deep_view()),
        old_group.stands_for(id_of(r.deep_view()), rows),
        rows.len() < usize::MAX,
    ensures
        g.stands_for(id_of(r.deep_view()), rows.push(r.deep_view())),
{
    let p = &old_group.project;
    let has_folder: bool = !r.local_folder.as_str().is_empty();
    let key = if has_folder {
        r.local_folder.clone()
    } else {
        p.key.clone()
    };
    let name = if has_folder {
        basename(r.local_folder.as_str())
    } else {
        p.name.clone()
    };
    let path = if has_folder {
        r.local_folder.clone()
    } else if p.path.as_str().is_empty() && !r.working_dir.as_str().is_empty() {
        r.working_dir.clone()
    } else {
        p.path.clone()
    };
    let g = Group {
        project: Project {
            key,
            name,
            path,
            kind: p.kind,
            running: p.running || is_running(r.state.as_str()),
            container_count: p.container_count + 1,
            devcon_managed: p.devcon_managed || r.devcon_marker,
        },
        dev: old_group.dev || has_folder || r.devcon_marker,
    };
    proof {
        let row = r.deep_view();
        let all = rows.push(row);
        let key = id_of(row);
        assert(all.drop_last() == rows);
        assert(all.last() == row);
        assert(all[0] == rows[0]);
        assert forall|i: int| 0 <= i < rows.len() implies all[i] == rows[i] by {}
        let was = project_of(key, rows);
        let now = project_of(key, all);
        if was.running {
            let i = choose|i: int| 0 <= i < rows.len() && row_running(#[trigger] rows[i]);
            assert(row_running(all[i]));
        }
        if row_running(row) {
            assert(row_running(all[rows.len() as int]));
        }
        if now.running {
            let i = choose|i: int| 0 <= i < all.len() && row_running(#[trigger] all[i]);
            if i < rows.len() {
                assert(row_running(rows[i]));
            }
        }
        if was.devcon_managed {
            let i = choose|i: int| 0 <= i < rows.len() && (#[trigger] rows[i]).devcon_marker;
            assert(all[i].devcon_marker);
        }
        if row.devcon_marker {
            assert(all[rows.len() as int].devcon_marker);
        }
        if now.devcon_managed {
            let i = choose|i: int| 0 <= i < all.len() && (#[trigger] all[i]).devcon_marker;
            if i < rows.len() {
                assert(rows[i].devcon_marker);
            }
        }
        if is_dev(rows) {
            let i = choose|i: int| 0 <= i < rows.len() && row_is_dev(#[trigger] rows[i]);
            assert(row_is_dev(all[i]));
        }
        if row_is_dev(row) {
            assert(row_is_dev(all[rows.len() as int]));
        }
        if is_dev(all) {
            let i = choose|i: int| 0 <= i < all.len() && row_is_dev(#[trigger] all[i]);
            if i < rows.len() {
                assert(row_is_dev(rows[i]));
            }
        }
        lemma_last_folder(rows);
        assert(g.project.deep_view() == now);
    }
    g
}

/// The table holds exactly the groups that rows make up.
spec fn gathers(t: Table<Group>, rows: Seq<ProjectRowView>) -> bool {
    &&& ordered(t.keys())
    &&& t.keys().len() == t.values().len()
    &&& forall|key: Seq<char>| #[trigger] group(rows, key).len() > 0 <==> t.keys().contains(key)
    &&& forall|i: int|
        0 <= i < t.keys().len() ==> (#[trigger] t.values()[i]).stands_for(
            t.keys()[i],
            group(rows, t.keys()[i]),
        )
}

/// Take one more row into the table of groups.
fn gather(t: &mut Table<Group>, r: &ProjectRow, Ghost(rows): Ghost<Seq<ProjectRowView>>)
    requires
        gathers(*old(t), rows),
        rows.len() < usize::MAX,
    ensures
        gathers(*final(t), rows.push(r.deep_view())),
{
    let ghost row = r.deep_view();
    let ghost all = rows.push(row);
    let ghost was = *t;
    proof {
        assert forall|key: Seq<char>| #[trigger]
            group(all, key) == if keyed(row) && id_of(row) == key {
                group(rows, key).push(row)
            } else {
                group(rows, key)
            } by {
            lemma_group_push(rows, row, key);
        }
    }
    let is_compose: bool = !r.compose_project.as_str().is_empty();
    if !is_compose && r.local_folder.as_str().is_empty() {
        assert(!keyed(row));
        return;
    }
    let key = if is_compose {
        r.compose_project.clone()
    } else {
        r.local_folder.clone()
    };
    let (i, found) = t.slot(key.as_str());
    let ghost k = key@;
    let ghost at = i as int;
    if found {
        let ghost g = group(rows, k);
        proof {
            lemma_group_short(rows, k);
        }
        let next = next_of_group(t.value(i), r, Ghost(g));
        t.replace_at(i, next);
        proof {
            assert(t.keys()[at] == k);
            assert forall|key: Seq<char>| #[trigger]
                group(all, key).len() > 0 <==> t.keys().contains(key) by {
                assert(group(rows, key).len() > 0 <==> was.keys().contains(key));
                if key == k {
                    assert(t.keys().contains(k));
                }
            }
            assert forall|j: int| 0 <= j < t.keys().len() implies (
            #[trigger] t.values()[j]).stands_for(t.keys()[j], group(all, t.keys()[j])) by {
                if j != at {
                    assert(was.values()[j].stands_for(was.keys()[j], group(rows, was.keys()[j])));
                    lemma_before_irreflexive(k);
                    assert(t.keys()[j] != k);
                }
            }
        }
    } else {
        assert(group(rows, k).len() == 0);
        let first = first_of_group(r);
        assert(seq![row] == group(rows, k).push(row));
        t.insert_at(i, key, first);
        proof {
            assert forall|key: Seq<char>| #[trigger]
                group(all, key).len() > 0 <==> t.keys().contains(key) by {
                assert(group(rows, key).len() > 0 <==> was.keys().contains(key));
                if key == k {
                    assert(t.keys()[at] == k);
                } else if was.keys().contains(key) {
                    let j = choose|j: int| 0 <= j < was.keys().len() && was.keys()[j] == key;
                    if j < at {
                        assert(t.keys()[j] == key);
                    } else {
                        assert(t.keys()[j + 1] == key);
                    }
                } else if t.keys().contains(key) {
                    let j = choose|j: int| 0 <= j < t.keys().len() && t.keys()[j] == key;
                    if j < at {
                        assert(was.keys()[j] == key);
                    } else if j > at {
                        assert(was.keys()[j - 1] == key);
                    }
                }
            }
            assert forall|j: int| 0 <= j < t.keys().len() implies (
            #[trigger] t.values()[j]).stands_for(t.keys()[j], group(all, t.keys()[j])) by {
                if j < at {
                    assert(was.values()[j].stands_for(was.keys()[j], group(rows, was.keys()[j])));
                    assert(was.keys().contains(was.keys()[j]));
                    assert(t.keys()[j] != k);
                } else if j > at {
                    assert(was.values()[j - 1].stands_for(
                        was.keys()[j - 1],
                        group(rows, was.keys()[j - 1]),
                    ));
                    assert(was.keys().contains(was.keys()[j - 1]));
                    assert(t.keys()[j] != k);
                }
            }
        }
    }
}

/// A group has no more rows than there are.
proof fn lemma_group_short(rows: Seq<ProjectRowView>, key: Seq<char>)
    ensures
        group(rows, key).len() <= rows.len(),
{
    rows.lemma_filter_len(|x: ProjectRowView| keyed(x) && id_of(x) == key);
}

/// Put a project into its place in the list: behind every project whose key
/// does not come after its own.
fn place(
    list: &mut Vec<Project>,
    p: Project,
    Ghost(rows): Ghost<Seq<ProjectRowView>>,
    Ghost(ids): Ghost<Seq<Seq<char>>>,
    Ghost(id): Ghost<Seq<char>>,
) -> (at: Ghost<int>)
    requires
        old(list).deep_view() == projects(rows, ids),
        in_order(ids, rows),
        forall|i: int| 0 <= i < ids.len() ==> before(#[trigger] ids[i], id),
        p.deep_view() == project(rows, id),
    ensures
        0 <= at@ <= ids.len(),
        final(list).deep_view() == projects(rows, ids.insert(at@, id)),
        in_order(ids.insert(at@, id), rows),
{
    let mut n: usize = 0;
    assert(list.deep_view().len() == projects(rows, ids).len());
    while n < list.len() && !is_before(p.key.as_str(), list[n].key.as_str())
        invariant
            list.deep_view() == projects(rows, ids),
            p.deep_view() == project(rows, id),
            list.len() == ids.len(),
            n <= list.len(),
            forall|i: int|
                0 <= i < n ==> !before(
                    project(rows, id).key,
                    project(rows, #[trigger] ids[i]).key,
                ),
        decreases list.len() - n,
    {
        assert(list.deep_view()[n as int] == list@[n as int].deep_view());
        n += 1;
    }
    let ghost was = list.deep_view();
    let ghost view = p.deep_view();
    let ghost at = n as int;
    let ghost now = ids.insert(at, id);
    proof {
        let key = project(rows, id).key;
        if at < ids.len() {
            assert(was[at] == list@[at].deep_view());
            assert(before(key, project(rows, ids[at]).key));
        }
        assert forall|i: int, j: int| 0 <= i < j < now.len() implies comes_before(
            rows,
            #[trigger] now[i],
            #[trigger] now[j],
        ) by {
            if j == at {
                assert(now[i] == ids[i]);
                lemma_before_total(key, project(rows, ids[i]).key);
            } else if i == at {
                assert(now[j] == ids[j - 1]);
                if j - 1 > at {
                    assert(comes_before(rows, ids[at], ids[j - 1]));
                    if before(project(rows, ids[at]).key, project(rows, ids[j - 1]).key) {
                        lemma_before_transitive(
                            key,
                            project(rows, ids[at]).key,
                            project(rows, ids[j - 1]).key,
                        );
                    }
                }
            } else {
                let x = if i < at {
                    i
                } else {
                    i - 1
                };
                let y = if j < at {
                    j
                } else {
                    j - 1
                };
                assert(now[i] == ids[x] && now[j] == ids[y]);
            }
        }
    }
    list.insert(n, p);
    proof {
        assert(list.deep_view() == was.insert(at, view));
        assert(projects(rows, now) == was.insert(at, view));
    }
    Ghost(at)
}

/// Group container rows into projects, in the order of their keys.
///
/// A container is grouped by its `com.docker.compose.project`, or else by its
/// `devcontainer.local_folder`, so that all of a stack comes together. A group
/// where any member has a `devcontainer.local_folder` is keyed on that path;
/// otherwise it is keyed on its compose project. When `all` is false, groups
/// with no dev-container signal on any member are dropped, so the list stays
/// dev-focused.
pub fn group_projects(rows: &Vec<ProjectRow>, all: bool) -> (r: Vec<Project>)
    ensures
        is_listing(r.deep_view(), rows.deep_view(), all),
{
    let ghost views = rows.deep_view();
    let mut t: Table<Group> = Table::new();
    let mut i: usize = 0;
    proof {
        assert forall|key: Seq<char>| #[trigger]
            group(views.take(0), key).len() > 0 <==> t.keys().contains(key) by {
            lemma_group_short(views.take(0), key);
        }
    }
    while i < rows.len()
        invariant
            views == rows.deep_view(),
            i <= rows.len(),
            gathers(t, views.take(i as int)),
        decreases rows.len() - i,
    {
        gather(&mut t, &rows[i], Ghost(views.take(i as int)));
        assert(views.take(i as int).push(rows@[i as int].deep_view()) == views.take(i + 1));
        i += 1;
    }
    assert(views.take(i as int) == views);
    let ghost keys = t.keys();
    let ghost values = t.values();
    let groups = t.into_values();
    let mut r: Vec<Project> = Vec::new();
    let ghost mut ids: Seq<Seq<char>> = seq![];
    let mut n: usize = 0;
    assert(r.deep_view() == projects(views, ids));
    while n < groups.len()
        invariant
            gathers(t, views),
            keys == t.keys(),
            values == t.values(),
            groups@ == values,
            n <= groups.len(),
            r.deep_view() == projects(views, ids),
            in_order(ids, views),
            forall|j: int|
                0 <= j < ids.len() ==> keys.take(n as int).contains(#[trigger] ids[j]) && listed(
                    views,
                    ids[j],
                    all,
                ),
            forall|k: int|
                0 <= k < n && (all || is_dev(group(views, #[trigger] keys[k]))) ==> ids.contains(
                    keys[k],
                ),
        decreases groups.len() - n,
    {
        let g = &groups[n];
        let ghost id = keys[n as int];
        let ghost had = ids;
        assert(values[n as int].stands_for(id, group(views, id)));
        assert forall|j: int| 0 <= j < ids.len() implies before(#[trigger] ids[j], id) by {
            let k = keys.take(n as int).index_of(ids[j]);
            assert(keys[k] == ids[j]);
        }
        if all || g.dev {
            let p = copy_project(&g.project);
            let at = place(&mut r, p, Ghost(views), Ghost(ids), Ghost(id));
            proof {
                ids = had.insert(at@, id);
                assert(ids[at@] == id);
                assert forall|x: Seq<char>| had.contains(x) implies #[trigger] ids.contains(x) by {
                    let j = had.index_of(x);
                    if j < at@ {
                        assert(ids[j] == x);
                    } else {
                        assert(ids[j + 1] == x);
                    }
                }
            }
        }
        proof {
            let seen_keys = keys.take(n + 1);
            assert(seen_keys[n as int] == id);
            assert forall|j: int| 0 <= j < ids.len() implies seen_keys.contains(#[trigger] ids[j])
                && listed(views, ids[j], all) by {
                if ids[j] != id {
                    assert(had.contains(ids[j]));
                    let m = had.index_of(ids[j]);
                    let k = keys.take(n as int).index_of(had[m]);
                    assert(seen_keys[k] == ids[j]);
                }
            }
        }
        n += 1;
    }
    proof {
        assert forall|id: Seq<char>| #[trigger]
            listed(views, id, all) <==> ids.contains(id) by {
            if listed(views, id, all) {
                assert(group(views, id).len() > 0);
                let k = keys.index_of(id);
                assert(keys[k] == id);
            }
            if ids.contains(id) {
                let j = ids.index_of(id);
                assert(ids[j] == id);
            }
        }
        assert(is_index(ids, views, all));
    }
    r
}

/// Copy a project.
fn copy_project(p: &Project) -> (r: Project)
    ensures
        r.deep_view() == p.deep_view(),
{
    Project {
        key: p.key.clone(),
        name: p.name.clone(),
        path: p.path.clone(),
        kind: p.kind,
        running: p.running,
        container_count: p.container_count,
        devcon_managed: p.devcon_managed,
    }
}

// ---------------------------------------------------------------------------
// The listing
// ---------------------------------------------------------------------------

/// What `docker ps` is asked for the containers of all projects.
pub open spec fn list_args() -> Seq<Seq<char>> {
    seq![
        "ps"@,
        "-a"@,
        "--format"@,
        "{{.Label \"devcontainer.local_folder\"}}\t{{.Label \"com.docker.compose.project\"}}\t{{.State}}\t{{.Label \"dev.devcon.postcreate\"}}\t{{.Label \"com.docker.compose.project.working_dir\"}}"@,
    ]
}

/// The rows of a listing, in order. Blank lines give none.
pub open spec fn project_rows(text: Seq<char>) -> Seq<ProjectRowView> {
    lines_of(text).filter_map(|line: Seq<char>| project_row(line))
}

/// What `docker ps` is asked for the containers of all projects.
pub fn list_projects_args() -> (r: Vec<String>)
    ensures
        r.deep_view() == list_args(),
{
    let r = strings(
        &[
            "ps",
            "-a",
            "--format",
            "{{.Label \"devcontainer.local_folder\"}}\t{{.Label \"com.docker.compose.project\"}}\t{{.State}}\t{{.Label \"dev.devcon.postcreate\"}}\t{{.Label \"com.docker.compose.project.working_dir\"}}",
        ],
    );
    assert(r.deep_view() == list_args());
    r
}

/// The rows of a listing.
fn parse_project_rows(text: &str) -> (r: Vec<ProjectRow>)
    ensures
        r.deep_view() == project_rows(text@),
{
    let all = lines(text);
    let ghost list = all.deep_view();
    let ghost take_row = |line: Seq<char>| project_row(line);
    let mut r: Vec<ProjectRow> = Vec::new();
    let mut i: usize = 0;
    assert(list.take(0) == Seq::<Seq<char>>::empty());
    while i < all.len()
        invariant
            list == all.deep_view(),
            take_row == (|line: Seq<char>| project_row(line)),
            i <= all.len(),
            r.deep_view() == list.take(i as int).filter_map(take_row),
        decreases all.len() - i,
    {
        let ghost had = r.deep_view();
        let ghost line = list[i as int];
        assert(line == all@[i as int]@);
        assert(list.take(i + 1) == list.take(i as int).push(line));
        assert(list.take(i + 1).drop_last() == list.take(i as int));
        if let Some(row) = parse_project_row(all[i]) {
            r.push(row);
            assert(r.deep_view() == had.push(row.deep_view()));
        }
        i += 1;
    }
    assert(list.take(i as int) == list);
    r
}

/// The dev-container projects present on this host (running or stopped), from
/// how listing its containers went.
///
/// A "project" is a group of containers sharing an identity: the host path in
/// `devcontainer.local_folder`, or the `com.docker.compose.project` label. By
/// default only groups that look like dev containers are counted; `all` widens
/// the net to *every* compose project on the host.
pub fn list_projects(listing: Outcome, all: bool) -> (r: Result<Vec<Project>, Error>)
    ensures
        match captured_text(list_args(), listing.deep_view()) {
            Ok(text) => r matches Ok(list) && is_listing(list.deep_view(), project_rows(text), all),
            Err(e) => r matches Err(err) && err.deep_view() == e,
        },
{
    match run_docker_text(&list_projects_args(), listing) {
        Ok(text) => Ok(group_projects(&parse_project_rows(text.as_str()), all)),
        Err(e) => Err(e),
    }
}

// ---------------------------------------------------------------------------
// Laws
// ---------------------------------------------------------------------------

/// No group comes before itself.
proof fn lemma_comes_before_irreflexive(rows: Seq<ProjectRowView>, a: Seq<char>)
    ensures
        !comes_before(rows, a, a),
{
    lemma_before_irreflexive(a);
    lemma_before_irreflexive(project(rows, a).key);
}

/// No two groups come before each other.
proof fn lemma_comes_before_asymmetric(rows: Seq<ProjectRowView>, a: Seq<char>, b: Seq<char>)
    requires
        comes_before(rows, a, b),
    ensures
        !comes_before(rows, b, a),
{
    let p = project(rows, a).key;
    let q = project(rows, b).key;
    lemma_before_irreflexive(p);
    lemma_before_irreflexive(a);
    if before(p, q) && before(q, p) {
        lemma_before_transitive(p, q, p);
    }
    if before(a, b) && before(b, a) {
        lemma_before_transitive(a, b, a);
    }
}

/// Two lists of the same groups in order are one list.
proof fn lemma_in_order_unique(a: Seq<Seq<char>>, b: Seq<Seq<char>>, rows: Seq<ProjectRowView>)
    requires
        in_order(a, rows),
        in_order(b, rows),
        forall|k: Seq<char>| a.contains(k) <==> b.contains(k),
    ensures
        a == b,
    decreases a.len(),
{
    if a.len() == 0 {
        if b.len() > 0 {
            assert(b.contains(b[0]));
        }
    } else {
        let x = a.last();
        assert(a.contains(x));
        let y = b.last();
        assert(b.contains(y));
        let i = choose|i: int| 0 <= i < a.len() && a[i] == y;
        let j = choose|j: int| 0 <= j < b.len() && b[j] == x;
        if x != y {
            assert(comes_before(rows, a[i], a[a.len() - 1]));
            assert(comes_before(rows, b[j], b[b.len() - 1]));
            lemma_comes_before_asymmetric(rows, x, y);
        }
        let c = a.drop_last();
        let d = b.drop_last();
        assert forall|k: Seq<char>| c.contains(k) <==> d.contains(k) by {
            lemma_comes_before_irreflexive(rows, k);
            if c.contains(k) {
                let n = choose|n: int| 0 <= n < c.len() && c[n] == k;
                assert(comes_before(rows, a[n], a[a.len() - 1]));
                assert(a.contains(k));
                let m = choose|m: int| 0 <= m < b.len() && b[m] == k;
                assert(d[m] == k);
            }
            if d.contains(k) {
                let n = choose|n: int| 0 <= n < d.len() && d[n] == k;
                assert(comes_before(rows, b[n], b[b.len() - 1]));
                assert(b.contains(k));
                let m = choose|m: int| 0 <= m < a.len() && a[m] == k;
                assert(c[m] == k);
            }
        }
        lemma_in_order_unique(c, d, rows);
        assert(a == c.push(x));
        assert(b == d.push(y));
    }
}

/// The listed groups stand in one order and no other.
proof fn lemma_index_unique(
    a: Seq<Seq<char>>,
    b: Seq<Seq<char>>,
    rows: Seq<ProjectRowView>,
    all: bool,
)
    requires
        is_index(a, rows, all),
        is_index(b, rows, all),
    ensures
        a == b,
{
    assert forall|k: Seq<char>| a.contains(k) <==> b.contains(k) by {
        assert(listed(rows, k, all) <==> a.contains(k));
        assert(listed(rows, k, all) <==> b.contains(k));
    }
    lemma_in_order_unique(a, b, rows);
}

/// Rows make up one list of projects and no other.
pub proof fn law_listing_is_unique(
    a: Seq<ProjectView>,
    b: Seq<ProjectView>,
    rows: Seq<ProjectRowView>,
    all: bool,
)
    requires
        is_listing(a, rows, all),
        is_listing(b, rows, all),
    ensures
        a == b,
{
    let x = choose|x: Seq<Seq<char>>| #[trigger] is_index(x, rows, all) && a == projects(rows, x);
    let y = choose|y: Seq<Seq<char>>| #[trigger] is_index(y, rows, all) && b == projects(rows, y);
    lemma_index_unique(x, y, rows, all);
}

/// The list is sorted by the keys of its projects.
pub proof fn law_listing_is_sorted(
    list: Seq<ProjectView>,
    rows: Seq<ProjectRowView>,
    all: bool,
    i: int,
    j: int,
)
    requires
        is_listing(list, rows, all),
        0 <= i < j < list.len(),
    ensures
        before(list[i].key, list[j].key) || list[i].key == list[j].key,
{
    let ids = choose|ids: Seq<Seq<char>>| #[trigger]
        is_index(ids, rows, all) && list == projects(rows, ids);
    assert(comes_before(rows, ids[i], ids[j]));
}

/// Picks the groups with a dev container among their rows.
pub open spec fn dev_group(rows: Seq<ProjectRowView>) -> spec_fn(Seq<char>) -> bool {
    |id: Seq<char>| is_dev(group(rows, id))
}

/// Leaving groups out keeps the order of the others.
proof fn lemma_filter_in_order(
    ids: Seq<Seq<char>>,
    rows: Seq<ProjectRowView>,
    keep: spec_fn(Seq<char>) -> bool,
)
    requires
        in_order(ids, rows),
    ensures
        in_order(ids.filter(keep), rows),
        forall|id: Seq<char>| #[trigger]
            ids.filter(keep).contains(id) <==> ids.contains(id) && keep(id),
    decreases ids.len(),
{
    reveal(Seq::filter);
    let kept = ids.filter(keep);
    if ids.len() > 0 {
        let rest = ids.drop_last();
        lemma_filter_in_order(rest, rows, keep);
        let head = rest.filter(keep);
        let last = ids.last();
        assert(kept == if keep(last) {
            head.push(last)
        } else {
            head
        });
        assert forall|i: int, j: int| 0 <= i < j < kept.len() implies comes_before(
            rows,
            #[trigger] kept[i],
            #[trigger] kept[j],
        ) by {
            if j == head.len() {
                assert(head.contains(head[i]));
                let n = rest.index_of(head[i]);
                assert(comes_before(rows, ids[n], ids[ids.len() - 1]));
            } else {
                assert(comes_before(rows, head[i], head[j]));
            }
        }
        assert forall|id: Seq<char>| #[trigger]
            kept.contains(id) <==> ids.contains(id) && keep(id) by {
            if kept.contains(id) {
                let n = kept.index_of(id);
                if n < head.len() {
                    assert(head[n] == id);
                    assert(head.contains(id));
                    let m = rest.index_of(id);
                    assert(ids[m] == id);
                } else {
                    assert(ids[ids.len() - 1] == id);
                }
            }
            if ids.contains(id) && keep(id) {
                let m = ids.index_of(id);
                if m < rest.len() {
                    assert(rest[m] == id);
                    assert(head.contains(id));
                    let n = head.index_of(id);
                    assert(kept[n] == id);
                } else {
                    assert(kept[head.len() as int] == id);
                }
            }
        }
    }
}

/// Asking for all projects only adds to the list: what is listed without is
/// what is listed with it, in the same order, but for the groups that show no
/// dev container.
pub proof fn law_all_widens(
    some: Seq<ProjectView>,
    every: Seq<ProjectView>,
    rows: Seq<ProjectRowView>,
)
    requires
        is_listing(some, rows, false),
        is_listing(every, rows, true),
    ensures
        exists|ids: Seq<Seq<char>>| #[trigger]
            is_index(ids, rows, true) && every == projects(rows, ids) && some == projects(
                rows,
                ids.filter(dev_group(rows)),
            ),
{
    let x = choose|x: Seq<Seq<char>>| #[trigger]
        is_index(x, rows, false) && some == projects(rows, x);
    let ids = choose|ids: Seq<Seq<char>>| #[trigger]
        is_index(ids, rows, true) && every == projects(rows, ids);
    let kept = ids.filter(dev_group(rows));
    lemma_filter_in_order(ids, rows, dev_group(rows));
    assert forall|id: Seq<char>| #[trigger]
        listed(rows, id, false) <==> kept.contains(id) by {
        assert(listed(rows, id, true) <==> ids.contains(id));
    }
    assert(is_index(kept, rows, false));
    lemma_index_unique(x, kept, rows, false);
}

/// A container that can be keyed is counted under exactly one project, whoever
/// else is in it: always when all projects are asked for, and in any case when
/// it shows a dev container itself.
pub proof fn law_keyed_row_is_listed(
    list: Seq<ProjectView>,
    rows: Seq<ProjectRowView>,
    all: bool,
    n: int,
)
    requires
        is_listing(list, rows, all),
        0 <= n < rows.len(),
        keyed(rows[n]),
        all || row_is_dev(rows[n]),
    ensures
        exists|ids: Seq<Seq<char>>| #[trigger]
            is_index(ids, rows, all) && list == projects(rows, ids) && ids.no_duplicates()
                && ids.contains(id_of(rows[n])) && group(rows, id_of(rows[n])).contains(rows[n]),
        list.contains(project(rows, id_of(rows[n]))),
{
    let id = id_of(rows[n]);
    let g = group(rows, id);
    let pred = |x: ProjectRowView| keyed(x) && id_of(x) == id;
    rows.lemma_filter_contains(pred, n);
    let m = choose|m: int| 0 <= m < g.len() && g[m] == rows[n];
    assert(all || row_is_dev(g[m]));
    assert(listed(rows, id, all));
    let ids = choose|ids: Seq<Seq<char>>| #[trigger]
        is_index(ids, rows, all) && list == projects(rows, ids);
    let k = ids.index_of(id);
    assert(list[k] == project(rows, id));
    assert forall|i: int, j: int|
        0 <= i < ids.len() && 0 <= j < ids.len() && i != j implies ids[i] != ids[j] by {
        lemma_comes_before_irreflexive(rows, ids[i]);
        if i < j {
            assert(comes_before(rows, ids[i], ids[j]));
        } else {
            assert(comes_before(rows, ids[j], ids[i]));
        }
    }
}

/// A row can be grouped under an id.
spec fn grouped_under(id: Seq<char>) -> spec_fn(ProjectRowView) -> bool {
    |r: ProjectRowView| keyed(r) && id_of(r) == id
}

/// A group holds the rows that can be grouped under its id, as often as they
/// are there.
proof fn lemma_group_multiset(rows: Seq<ProjectRowView>, id: Seq<char>)
    ensures
        group(rows, id).to_multiset() == rows.to_multiset().filter(grouped_under(id)),
    decreases rows.len(),
{
    let pred = grouped_under(id);
    group(rows, id).to_multiset_ensures();
    rows.to_multiset_ensures();
    if rows.len() == 0 {
        lemma_group_short(rows, id);
        assert(group(rows, id).to_multiset() =~= rows.to_multiset().filter(pred));
    } else {
        let rest = rows.drop_last();
        let last = rows.last();
        assert(rows == rest.push(last));
        lemma_group_multiset(rest, id);
        lemma_group_push(rest, last, id);
        rest.to_multiset_ensures();
        group(rest, id).to_multiset_ensures();
        assert(group(rows, id).to_multiset() =~= rows.to_multiset().filter(pred));
    }
}

/// What is said of the rows of a group does not go by their order.
proof fn lemma_group_permuted(a: Seq<ProjectRowView>, b: Seq<ProjectRowView>, id: Seq<char>)
    requires
        a.to_multiset() == b.to_multiset(),
    ensures
        group(a, id).len() == group(b, id).len(),
        forall|r: ProjectRowView| group(a, id).contains(r) <==> group(b, id).contains(r),
        project(a, id).running == project(b, id).running,
        project(a, id).devcon_managed == project(b, id).devcon_managed,
        is_dev(group(a, id)) == is_dev(group(b, id)),
{
    let g = group(a, id);
    let h = group(b, id);
    lemma_group_multiset(a, id);
    lemma_group_multiset(b, id);
    g.to_multiset_ensures();
    h.to_multiset_ensures();
    assert forall|r: ProjectRowView| g.contains(r) <==> h.contains(r) by {
        assert(g.contains(r) <==> g.to_multiset().count(r) > 0);
        assert(h.contains(r) <==> h.to_multiset().count(r) > 0);
    }
    lemma_shown_alike(g, h);
    lemma_shown_alike(h, g);
}

/// Signs that one of some rows shows, one of more rows shows too.
proof fn lemma_shown_alike(g: Seq<ProjectRowView>, h: Seq<ProjectRowView>)
    requires
        forall|r: ProjectRowView| g.contains(r) ==> h.contains(r),
    ensures
        (exists|i: int| 0 <= i < g.len() && row_running(#[trigger] g[i])) ==> (exists|i: int|
            0 <= i < h.len() && row_running(#[trigger] h[i])),
        (exists|i: int| 0 <= i < g.len() && (#[trigger] g[i]).devcon_marker) ==> (exists|i: int|
            0 <= i < h.len() && (#[trigger] h[i]).devcon_marker),
        is_dev(g) ==> is_dev(h),
{
    assert forall|i: int| 0 <= i < g.len() implies exists|j: int|
        0 <= j < h.len() && h[j] == #[trigger] g[i] by {
        assert(g.contains(g[i]));
        let j = h.index_of(g[i]);
        assert(h[j] == g[i]);
    }
    if exists|i: int| 0 <= i < g.len() && row_running(#[trigger] g[i]) {
        let i = choose|i: int| 0 <= i < g.len() && row_running(#[trigger] g[i]);
        let j = choose|j: int| 0 <= j < h.len() && h[j] == g[i];
        assert(row_running(h[j]));
    }
    if exists|i: int| 0 <= i < g.len() && (#[trigger] g[i]).devcon_marker {
        let i = choose|i: int| 0 <= i < g.len() && (#[trigger] g[i]).devcon_marker;
        let j = choose|j: int| 0 <= j < h.len() && h[j] == g[i];
        assert(h[j].devcon_marker);
    }
    if is_dev(g) {
        let i = choose|i: int| 0 <= i < g.len() && row_is_dev(#[trigger] g[i]);
        let j = choose|j: int| 0 <= j < h.len() && h[j] == g[i];
        assert(row_is_dev(h[j]));
    }
}

/// The order in which docker prints the containers makes no difference to
/// which projects are listed, where each stands, and what its key, state,
/// count and marker are. This leaves out an order that changes which of
/// several project paths in one group comes last: that one is the key.
pub proof fn law_row_order_makes_no_difference(
    a: Seq<ProjectRowView>,
    b: Seq<ProjectRowView>,
    all: bool,
    x: Seq<ProjectView>,
    y: Seq<ProjectView>,
)
    requires
        a.to_multiset() == b.to_multiset(),
        forall|id: Seq<char>|
            last_folder(#[trigger] group(a, id)) == last_folder(group(b, id)),
        is_listing(x, a, all),
        is_listing(y, b, all),
    ensures
        x.len() == y.len(),
        forall|i: int|
            0 <= i < x.len() ==> {
                &&& (#[trigger] x[i]).key == y[i].key
                &&& x[i].running == y[i].running
                &&& x[i].container_count == y[i].container_count
                &&& x[i].devcon_managed == y[i].devcon_managed
            },
{
    let p = choose|p: Seq<Seq<char>>| #[trigger] is_index(p, a, all) && x == projects(a, p);
    let q = choose|q: Seq<Seq<char>>| #[trigger] is_index(q, b, all) && y == projects(b, q);
    assert forall|id: Seq<char>| listed(a, id, all) == #[trigger] listed(b, id, all) by {
        lemma_group_permuted(a, b, id);
    }
    assert forall|id: Seq<char>| #[trigger] project(a, id).key == project(b, id).key by {
        assert(last_folder(group(a, id)) == last_folder(group(b, id)));
    }
    assert(in_order(q, a)) by {
        assert forall|i: int, j: int| 0 <= i < j < q.len() implies comes_before(
            a,
            #[trigger] q[i],
            #[trigger] q[j],
        ) by {
            assert(comes_before(b, q[i], q[j]));
            assert(project(a, q[i]).key == project(b, q[i]).key);
            assert(project(a, q[j]).key == project(b, q[j]).key);
        }
    }
    assert forall|id: Seq<char>| #[trigger] listed(a, id, all) <==> q.contains(id) by {
        assert(listed(b, id, all) <==> q.contains(id));
    }
    assert(is_index(q, a, all));
    lemma_index_unique(p, q, a, all);
    assert forall|i: int| 0 <= i < x.len() implies {
        &&& (#[trigger] x[i]).key == y[i].key
        &&& x[i].running == y[i].running
        &&& x[i].container_count == y[i].container_count
        &&& x[i].devcon_managed == y[i].devcon_managed
    } by {
        assert(project(a, p[i]).key == project(b, p[i]).key);
        lemma_group_permuted(a, b, p[i]);
    }
}

/// The rows of each group have no more than one project path among them.
pub open spec fn one_folder_each(rows: Seq<ProjectRowView>) -> bool {
    forall|id: Seq<char>, r: ProjectRowView, s: ProjectRowView|
        #![trigger group(rows, id).contains(r), group(rows, id).contains(s)]
        group(rows, id).contains(r) && group(rows, id).contains(s) && r.local_folder.len() > 0
            && s.local_folder.len() > 0 ==> r.local_folder == s.local_folder
}

/// Where a group has one project path, it comes last in any order of the
/// rows.
pub proof fn law_one_folder_comes_last(a: Seq<ProjectRowView>, b: Seq<ProjectRowView>, id: Seq<char>)
    requires
        a.to_multiset() == b.to_multiset(),
        one_folder_each(a),
    ensures
        last_folder(group(a, id)) == last_folder(group(b, id)),
{
    lemma_group_permuted(a, b, id);
    lemma_last_folder(group(a, id));
    lemma_last_folder(group(b, id));
}

/// The last project path is that of a row; there is none only where no row
/// has one.
proof fn lemma_last_folder(g: Seq<ProjectRowView>)
    ensures
        match last_folder(g) {
            Some(folder) => folder.len() > 0 && exists|r: ProjectRowView| #[trigger]
                g.contains(r) && r.local_folder == folder,
            None => forall|r: ProjectRowView| #[trigger]
                g.contains(r) ==> r.local_folder.len() == 0,
        },
    decreases g.len(),
{
    if g.len() > 0 {
        let rest = g.drop_last();
        lemma_last_folder(rest);
        assert(g.contains(g.last()));
        assert forall|r: ProjectRowView| #[trigger] rest.contains(r) implies g.contains(r) by {
            let n = rest.index_of(r);
            assert(g[n] == r);
        }
        assert forall|r: ProjectRowView| #[trigger] g.contains(r) implies r == g.last()
            || rest.contains(r) by {
            let n = g.index_of(r);
            if n < rest.len() {
                assert(rest[n] == r);
            }
        }
    }
}

/// A row belongs to a project: by its compose project, or else, without one,
/// by its project path.
pub open spec fn belongs(r: ProjectRowView, id: Seq<char>) -> bool {
    if r.compose_project.len() > 0 {
        r.compose_project == id
    } else {
        r.local_folder.len() > 0 && r.local_folder == id
    }
}

/// A group holds the rows that belong to it.
proof fn lemma_group_belongs(rows: Seq<ProjectRowView>, id: Seq<char>)
    ensures
        group(rows, id) == rows.filter(|r: ProjectRowView| belongs(r, id)),
    decreases rows.len(),
{
    let pred = |r: ProjectRowView| belongs(r, id);
    if rows.len() == 0 {
        lemma_group_short(rows, id);
        rows.lemma_filter_len(pred);
        assert(group(rows, id) == rows.filter(pred));
    } else {
        let rest = rows.drop_last();
        let last = rows.last();
        assert(rows == rest.push(last));
        lemma_group_belongs(rest, id);
        lemma_group_push(rest, last, id);
        rest.lemma_filter_push(last, pred);
        assert(belongs(last, id) == (keyed(last) && id_of(last) == id));
    }
}

/// What is in a group is a row that belongs there, and the other way round.
proof fn lemma_in_group(rows: Seq<ProjectRowView>, id: Seq<char>, r: ProjectRowView)
    ensures
        group(rows, id).contains(r) <==> rows.contains(r) && belongs(r, id),
{
    let pred = |r: ProjectRowView| belongs(r, id);
    lemma_group_belongs(rows, id);
    let g = group(rows, id);
    if g.contains(r) {
        let i = g.index_of(r);
        rows.lemma_filter_pred(pred, i);
        rows.lemma_filter_contains_rev(pred, r);
    }
    if rows.contains(r) && belongs(r, id) {
        let i = rows.index_of(r);
        rows.lemma_filter_contains(pred, i);
    }
}

/// A project spans the containers that belong to it: it has as many as there
/// are, runs if any of them does, and is devcon's if any of them is marked.
pub proof fn law_project_spans_its_containers(rows: Seq<ProjectRowView>, id: Seq<char>)
    ensures
        project(rows, id).container_count == rows.filter(
            |r: ProjectRowView| belongs(r, id),
        ).len(),
        project(rows, id).running <==> exists|r: ProjectRowView| #[trigger]
            rows.contains(r) && belongs(r, id) && same_but_case(r.state, "running"@),
        project(rows, id).devcon_managed <==> exists|r: ProjectRowView| #[trigger]
            rows.contains(r) && belongs(r, id) && r.devcon_marker,
        is_dev(group(rows, id)) <==> exists|r: ProjectRowView| #[trigger]
            rows.contains(r) && belongs(r, id) && (r.local_folder.len() > 0 || r.devcon_marker),
{
    let g = group(rows, id);
    lemma_group_belongs(rows, id);
    assert forall|r: ProjectRowView| #[trigger]
        g.contains(r) <==> rows.contains(r) && belongs(r, id) by {
        lemma_in_group(rows, id, r);
    }
    assert forall|i: int| 0 <= i < g.len() implies rows.contains(#[trigger] g[i]) && belongs(
        g[i],
        id,
    ) by {
        assert(g.contains(g[i]));
    }
    if exists|r: ProjectRowView| #[trigger]
        rows.contains(r) && belongs(r, id) && same_but_case(r.state, "running"@) {
        let r = choose|r: ProjectRowView| #[trigger]
            rows.contains(r) && belongs(r, id) && same_but_case(r.state, "running"@);
        assert(g.contains(r));
        assert(row_running(g[g.index_of(r)]));
    }
    if project(rows, id).running {
        let i = choose|i: int| 0 <= i < g.len() && row_running(#[trigger] g[i]);
        assert(rows.contains(g[i]));
    }
    if exists|r: ProjectRowView| #[trigger]
        rows.contains(r) && belongs(r, id) && r.devcon_marker {
        let r = choose|r: ProjectRowView| #[trigger]
            rows.contains(r) && belongs(r, id) && r.devcon_marker;
        assert(g.contains(r));
        assert(g[g.index_of(r)].devcon_marker);
    }
    if project(rows, id).devcon_managed {
        let i = choose|i: int| 0 <= i < g.len() && (#[trigger] g[i]).devcon_marker;
        assert(rows.contains(g[i]));
    }
    if exists|r: ProjectRowView| #[trigger]
        rows.contains(r) && belongs(r, id) && (r.local_folder.len() > 0 || r.devcon_marker) {
        let r = choose|r: ProjectRowView| #[trigger]
            rows.contains(r) && belongs(r, id) && (r.local_folder.len() > 0 || r.devcon_marker);
        assert(g.contains(r));
        assert(row_is_dev(g[g.index_of(r)]));
    }
    if is_dev(g) {
        let i = choose|i: int| 0 <= i < g.len() && row_is_dev(#[trigger] g[i]);
        assert(rows.contains(g[i]));
    }
}

/// A project lives where the last of its containers to have a project path
/// says, and is keyed on that path and named after its directory.
pub proof fn law_project_path_is_its_key(
    rows: Seq<ProjectRowView>,
    id: Seq<char>,
    j: int,
    dir: Seq<char>,
    name: Seq<char>,
)
    requires
        0 <= j < rows.len(),
        belongs(rows[j], id),
        rows[j].local_folder.len() > 0,
        forall|k: int|
            j < k < rows.len() ==> !(belongs(#[trigger] rows[k], id) && rows[k].local_folder.len()
                > 0),
    ensures
        project(rows, id).key == rows[j].local_folder,
        project(rows, id).path == rows[j].local_folder,
        name.len() > 0 && !name.contains('/') && rows[j].local_folder == dir + seq!['/'] + name
            ==> project(rows, id).name == name,
    decreases rows.len(),
{
    let rest = rows.drop_last();
    let last = rows.last();
    let g = group(rows, id);
    assert(rows == rest.push(last));
    lemma_group_push(rest, last, id);
    assert(belongs(last, id) == (keyed(last) && id_of(last) == id));
    if j == rows.len() - 1 {
        assert(g.last() == last);
    } else {
        assert(rest[j] == rows[j]);
        assert forall|k: int| j < k < rest.len() implies !(belongs(#[trigger] rest[k], id)
            && rest[k].local_folder.len() > 0) by {
            assert(rest[k] == rows[k]);
        }
        law_project_path_is_its_key(rest, id, j, dir, name);
        assert(!(belongs(rows[rows.len() - 1], id) && rows[rows.len() - 1].local_folder.len() > 0));
        if belongs(last, id) {
            assert(g.drop_last() == group(rest, id));
            assert(g.last() == last);
        }
        lemma_last_folder(group(rest, id));
        lemma_folder_of_rest(rest, id, j);
        assert(last_folder(g) == last_folder(group(rest, id)));
    }
    if name.len() > 0 && !name.contains('/') && rows[j].local_folder == dir + seq!['/'] + name {
        law_pieces_in_parts(dir, name, '/');
        lemma_index_cuts(name, '/');
        assert(pieces(name, '/') == seq![name]);
        assert(pieces(rows[j].local_folder, '/').last() == name);
    }
}

/// The project path of a group that has one.
proof fn lemma_folder_of_rest(rows: Seq<ProjectRowView>, id: Seq<char>, j: int)
    requires
        0 <= j < rows.len(),
        belongs(rows[j], id),
        rows[j].local_folder.len() > 0,
    ensures
        last_folder(group(rows, id)) is Some,
{
    lemma_in_group(rows, id, rows[j]);
    assert(rows.contains(rows[j]));
    lemma_last_folder(group(rows, id));
}

/// Without a project path, a compose project goes by its name, and lives where
/// the first of its containers to say so was launched from.
pub proof fn law_project_without_a_path(rows: Seq<ProjectRowView>, id: Seq<char>, j: int)
    requires
        forall|k: int|
            0 <= k < rows.len() && belongs(#[trigger] rows[k], id) ==> rows[k].local_folder.len()
                == 0,
        0 <= j < rows.len(),
        belongs(rows[j], id),
        rows[j].working_dir.len() > 0,
        forall|k: int|
            0 <= k < j && belongs(#[trigger] rows[k], id) ==> rows[k].working_dir.len() == 0,
    ensures
        project(rows, id).key == id,
        project(rows, id).name == id,
        project(rows, id).path == rows[j].working_dir,
        project(rows, id).kind == "compose"@,
{
    let g = group(rows, id);
    lemma_last_folder(g);
    if last_folder(g) is Some {
        let r = choose|r: ProjectRowView| #[trigger]
            g.contains(r) && r.local_folder == last_folder(g)->Some_0;
        lemma_in_group(rows, id, r);
        let k = rows.index_of(r);
        assert(rows[k] == r);
    }
    lemma_first_working_dir(rows, id, j);
    lemma_in_group(rows, id, rows[j]);
    assert(rows.contains(rows[j]));
    assert(g.len() > 0);
    lemma_in_group(rows, id, g[0]);
    assert(g.contains(g[0]));
    let k = rows.index_of(g[0]);
    assert(rows[k] == g[0]);
}

proof fn lemma_first_working_dir(rows: Seq<ProjectRowView>, id: Seq<char>, j: int)
    requires
        0 <= j < rows.len(),
        belongs(rows[j], id),
        rows[j].working_dir.len() > 0,
        forall|k: int|
            0 <= k < j && belongs(#[trigger] rows[k], id) ==> rows[k].working_dir.len() == 0,
    ensures
        first_working_dir(group(rows, id)) == rows[j].working_dir,
    decreases rows.len(),
{
    let rest = rows.drop_last();
    let last = rows.last();
    let g = group(rows, id);
    assert(rows == rest.push(last));
    lemma_group_push(rest, last, id);
    assert(belongs(last, id) == (keyed(last) && id_of(last) == id));
    if belongs(last, id) {
        assert(g.drop_last() == group(rest, id));
        assert(g.last() == last);
    }
    if j < rest.len() {
        assert(rest[j] == rows[j]);
        assert forall|k: int| 0 <= k < j && belongs(#[trigger] rest[k], id) implies rest[
            k
        ].working_dir.len() == 0 by {
            assert(rest[k] == rows[k]);
        }
        lemma_first_working_dir(rest, id, j);
    } else {
        assert forall|k: int| 0 <= k < rest.len() && belongs(#[trigger] rest[k], id) implies rest[
            k
        ].working_dir.len() == 0 by {
            assert(rest[k] == rows[k]);
        }
        lemma_no_working_dir(rest, id);
    }
}

proof fn lemma_no_working_dir(rows: Seq<ProjectRowView>, id: Seq<char>)
    requires
        forall|k: int|
            0 <= k < rows.len() && belongs(#[trigger] rows[k], id) ==> rows[k].working_dir.len()
                == 0,
    ensures
        first_working_dir(group(rows, id)).len() == 0,
    decreases rows.len(),
{
    if rows.len() == 0 {
        lemma_group_short(rows, id);
    } else {
        let rest = rows.drop_last();
        let last = rows.last();
        assert(rows == rest.push(last));
        lemma_group_push(rest, last, id);
        assert(belongs(last, id) == (keyed(last) && id_of(last) == id));
        assert(rows[rows.len() - 1] == last);
        assert forall|k: int| 0 <= k < rest.len() && belongs(#[trigger] rest[k], id) implies rest[
            k
        ].working_dir.len() == 0 by {
            assert(rest[k] == rows[k]);
        }
        lemma_no_working_dir(rest, id);
        if belongs(last, id) {
            assert(group(rows, id).drop_last() == group(rest, id));
            assert(group(rows, id).last() == last);
        }
    }
}

/// Every project with a dev container among its containers is listed, and no
/// other is unless all are asked for; then every one is.
pub proof fn law_what_is_listed(
    list: Seq<ProjectView>,
    rows: Seq<ProjectRowView>,
    all: bool,
    id: Seq<char>,
    p: ProjectView,
)
    requires
        is_listing(list, rows, all),
    ensures
        (exists|r: ProjectRowView| #[trigger]
            rows.contains(r) && belongs(r, id) && (all || r.local_folder.len() > 0
                || r.devcon_marker)) ==> list.contains(project(rows, id)),
        list.contains(p) ==> exists|k: Seq<char>, r: ProjectRowView|
            p == project(rows, k) && #[trigger] rows.contains(r) && #[trigger] belongs(r, k) && (all
                || r.local_folder.len() > 0 || r.devcon_marker),
{
    let ids = choose|ids: Seq<Seq<char>>| #[trigger]
        is_index(ids, rows, all) && list == projects(rows, ids);
    if exists|r: ProjectRowView| #[trigger]
        rows.contains(r) && belongs(r, id) && (all || r.local_folder.len() > 0 || r.devcon_marker) {
        let r = choose|r: ProjectRowView| #[trigger]
            rows.contains(r) && belongs(r, id) && (all || r.local_folder.len() > 0
                || r.devcon_marker);
        lemma_in_group(rows, id, r);
        let g = group(rows, id);
        let i = g.index_of(r);
        assert(all || row_is_dev(g[i]));
        assert(listed(rows, id, all));
        let k = ids.index_of(id);
        assert(list[k] == project(rows, id));
    }
    if list.contains(p) {
        let i = list.index_of(p);
        let k = ids[i];
        assert(ids.contains(k));
        assert(listed(rows, k, all));
        let g = group(rows, k);
        let m = if all {
            0
        } else {
            choose|m: int| 0 <= m < g.len() && row_is_dev(#[trigger] g[m])
        };
        assert(g.contains(g[m]));
        lemma_in_group(rows, k, g[m]);
        assert(p == project(rows, k) && rows.contains(g[m]) && belongs(g[m], k));
    }
}

/// A line of five fields with tabs between them makes a row of those fields;
/// a label that docker prints as `<no value>` is not there.
pub proof fn law_project_line_makes_a_row(
    folder: Seq<char>,
    compose: Seq<char>,
    state: Seq<char>,
    marker: Seq<char>,
    dir: Seq<char>,
)
    requires
        !folder.contains('\t'),
        !compose.contains('\t'),
        !state.contains('\t'),
        !marker.contains('\t'),
        trimmed(state).len() > 0,
    ensures
        project_row(
            folder + seq!['\t'] + (compose + seq!['\t'] + (state + seq!['\t'] + (marker + seq!['\t']
                + dir))),
        ) == Some(
            ProjectRowView {
                local_folder: trimmed(folder),
                compose_project: trimmed(compose),
                state: trimmed(state),
                devcon_marker: trimmed(marker).len() > 0 && trimmed(marker) != "<no value>"@,
                working_dir: if trimmed(dir) == "<no value>"@ {
                    Seq::<char>::empty()
                } else {
                    trimmed(dir)
                },
            },
        ),
{
    let d = marker + seq!['\t'] + dir;
    let c = state + seq!['\t'] + d;
    let b = compose + seq!['\t'] + c;
    let a = folder + seq!['\t'] + b;
    assert(cut_at(d, '\t', marker, dir));
    assert(cut_at(c, '\t', state, d));
    assert(cut_at(b, '\t', compose, c));
    assert(cut_at(a, '\t', folder, b));
    law_first_pieces(a, '\t', folder, b, 5);
    law_first_pieces(b, '\t', compose, c, 4);
    law_first_pieces(c, '\t', state, d, 3);
    law_first_pieces(d, '\t', marker, dir, 2);
    law_first_pieces(dir, '\t', marker, dir, 1);
    let f = first_pieces(a, '\t', 5);
    assert(f == seq![folder, compose, state, marker, dir]);
    assert(f[2] == state);
    assert(trimmed(f[2]).len() > 0);
}

/// The rows follow the lines: that of the first line, if it makes one, and
/// then those of the others.
pub proof fn law_project_rows_follow_the_lines(text: Seq<char>, line: Seq<char>, rest: Seq<char>)
    requires
        cut_at(text, '\n', line, rest),
        line.len() > 0 ==> line.last() != '\r',
    ensures
        project_rows(text) == match project_row(line) {
            Some(row) => seq![row] + project_rows(rest),
            None => project_rows(rest),
        },
        project_rows(Seq::<char>::empty()).len() == 0,
{
    let parse = |l: Seq<char>| project_row(l);
    law_lines(text, line, rest);
    law_lines(Seq::<char>::empty(), line, rest);
    lemma_filter_map_parts(seq![line], lines_of(rest), parse);
    lemma_filter_map_one(line, parse);
    if project_row(line) is None {
        assert(Seq::<ProjectRowView>::empty() + project_rows(rest) == project_rows(rest));
    }
}

/// A project is a compose stack if its containers are of a compose project,
/// and a single container if they are of none.
pub proof fn law_project_kind(rows: Seq<ProjectRowView>, id: Seq<char>, j: int)
    requires
        0 <= j < rows.len(),
        belongs(rows[j], id),
    ensures
        (forall|k: int|
            0 <= k < rows.len() && belongs(#[trigger] rows[k], id)
                ==> rows[k].compose_project.len() > 0) ==> project(rows, id).kind == "compose"@,
        (forall|k: int|
            0 <= k < rows.len() && belongs(#[trigger] rows[k], id)
                ==> rows[k].compose_project.len() == 0) ==> project(rows, id).kind == "container"@,
{
    let g = group(rows, id);
    lemma_in_group(rows, id, rows[j]);
    assert(rows.contains(rows[j]));
    assert(g.contains(g[0]));
    lemma_in_group(rows, id, g[0]);
    let k = rows.index_of(g[0]);
    assert(rows[k] == g[0]);
}

/// The name of a path is its last piece, whether or not a slash follows it.
pub proof fn law_last_piece(dir: Seq<char>, name: Seq<char>)
    requires
        name.len() > 0,
        !name.contains('/'),
    ensures
        last_piece(dir + seq!['/'] + name) == name,
        last_piece(dir + seq!['/'] + name + seq!['/']) == name,
        last_piece(name) == name,
{
    let p = dir + seq!['/'] + name;
    let none = Seq::<char>::empty();
    lemma_index_cuts(name, '/');
    assert(pieces(name, '/') == seq![name]);
    assert(seq![name].last() == name);
    law_pieces_in_parts(dir, name, '/');
    assert(pieces(p, '/').last() == name);
    law_pieces_in_parts(p, none, '/');
    assert(p + seq!['/'] + none == p + seq!['/']);
    assert(pieces(none, '/') == seq![none]);
    let list = pieces(p + seq!['/'], '/');
    assert(list.last() == none);
    assert(list.drop_last() == pieces(p, '/'));
    assert(last_filled(pieces(p, '/'), p + seq!['/']) == name);
}

} // verus!

//! Which of the running containers is the project's dev container?

use super::compose_file::{scan_workspace_service, workspace_service};
use super::projects::field;
use super::{
    captured_text, inspect, inspect_args, run_docker_text, Container, ContainerView, Error, ErrorView,
};
use crate::devcontainer::{compose_based, config_dir, Devcontainer, DevcontainerView};
use crate::path::{base, file_name, join, under};
use crate::request::{answers, seen, strings, Reply, ReplyView, Request, RequestView};
use crate::text::{
    contains, cut_at, first_pieces, law_first_pieces, law_lines, lemma_filter_map_one,
    lemma_filter_map_parts, lines, lines_of, occurs, same, splitn, trim, trimmed,
};
use vstd::prelude::*;

verus! {

// ---------------------------------------------------------------------------
// The list of running containers
// ---------------------------------------------------------------------------

/// One row of `docker ps` with the labels that tell containers apart.
#[derive(Debug)]
pub struct PsRow {
    pub id: String,
    pub name: String,
    /// `devcontainer.local_folder`.
    pub local_folder: String,
    /// `com.docker.compose.service`.
    pub compose_service: String,
}

/// A [`PsRow`] as plain values.
#[verifier::ext_equal]
pub struct PsRowView {
    pub id: Seq<char>,
    pub name: Seq<char>,
    pub local_folder: Seq<char>,
    pub compose_service: Seq<char>,
}

impl DeepView for PsRow {
    type V = PsRowView;

    open spec fn deep_view(&self) -> PsRowView {
        PsRowView {
            id: self.id@,
            name: self.name@,
            local_folder: self.local_folder@,
            compose_service: self.compose_service@,
        }
    }
}

/// The container of a row.
pub open spec fn container_of(r: PsRowView) -> ContainerView {
    ContainerView { id: r.id, name: r.name }
}

impl PsRow {
    /// The container of a row.
    pub fn container(&self) -> (r: Container)
        ensures
            r.deep_view() == container_of(self.deep_view()),
    {
        Container { id: self.id.clone(), name: self.name.clone() }
    }
}

/// What a line of `docker ps` says; nothing if it has no second field.
pub open spec fn ps_row(line: Seq<char>) -> Option<PsRowView> {
    let f = first_pieces(line, '\t', 4);
    if f.len() < 2 {
        None
    } else {
        Some(
            PsRowView {
                id: f[0],
                name: trimmed(f[1]),
                local_folder: field(f, 2),
                compose_service: field(f, 3),
            },
        )
    }
}

/// The rows that `docker ps` printed.
pub open spec fn ps_rows(text: Seq<char>) -> Seq<PsRowView> {
    lines_of(text).filter_map(|line: Seq<char>| ps_row(line))
}

/// What `docker ps` is asked.
pub open spec fn ps_args() -> Seq<Seq<char>> {
    seq![
        "ps"@,
        "--format"@,
        "{{.ID}}\t{{.Names}}\t{{.Label \"devcontainer.local_folder\"}}\t{{.Label \"com.docker.compose.service\"}}"@,
    ]
}

/// One row of `docker ps`.
fn parse_ps_row(line: &str) -> (r: Option<PsRow>)
    ensures
        r.deep_view() == ps_row(line@),
{
    let c = splitn(line, 4, '\t');
    if c.len() < 2 {
        return None;
    }
    let row = PsRow {
        id: c[0].to_owned(),
        name: trim(c[1]).to_owned(),
        local_folder: if c.len() > 2 {
            trim(c[2]).to_owned()
        } else {
            String::new()
        },
        compose_service: if c.len() > 3 {
            trim(c[3]).to_owned()
        } else {
            String::new()
        },
    };
    assert(row.deep_view() == ps_row(line@)->Some_0);
    Some(row)
}

/// The rows that `docker ps` printed.
pub fn parse_ps(text: &str) -> (r: Vec<PsRow>)
    ensures
        r.deep_view() == ps_rows(text@),
{
    let all = lines(text);
    let ghost list = all.deep_view();
    let ghost parse = |line: Seq<char>| ps_row(line);
    let mut r: Vec<PsRow> = Vec::new();
    let mut i: usize = 0;
    while i < all.len()
        invariant
            list == all.deep_view(),
            parse == (|line: Seq<char>| ps_row(line)),
            i <= all.len(),
            r.deep_view() == list.take(i as int).filter_map(parse),
        decreases all.len() - i,
    {
        assert(list.take(i + 1).drop_last() == list.take(i as int));
        assert(list.take(i + 1).last() == all@[i as int]@);
        let ghost had = r.deep_view();
        if let Some(row) = parse_ps_row(all[i]) {
            r.push(row);
            assert(r.deep_view() == had + seq![row.deep_view()]);
        }
        i += 1;
    }
    assert(list.take(i as int) == list);
    r
}

// ---------------------------------------------------------------------------
// What tells a container apart
// ---------------------------------------------------------------------------

/// A container name that holds the name of the project's folder.
pub open spec fn named_after(name: Seq<char>, folder: Seq<char>) -> bool {
    folder.len() > 0 && occurs(name, folder)
}

/// A row of the same kind of stack as the configuration: a container in a
/// compose stack carries the label of its service, a standalone one does not.
pub open spec fn same_kind(dc: DevcontainerView, r: PsRowView) -> bool {
    (r.compose_service.len() > 0) == compose_based(dc)
}

/// One of the mount sources, a line each, is the project root.
pub open spec fn mounts_root(text: Seq<char>, root: Seq<char>) -> bool {
    exists|i: int| 0 <= i < lines_of(text).len() && trimmed(#[trigger] lines_of(text)[i]) == root
}

/// The name of the project's folder; empty where the root has none.
pub open spec fn folder_of(dc: DevcontainerView) -> Seq<char> {
    match base(dc.project_root) {
        Some(name) => name,
        None => seq![],
    }
}

/// True if a container name holds the name of the project's folder.
pub fn name_matches_project(name: &str, project_folder: &str) -> (r: bool)
    ensures
        r == named_after(name@, project_folder@),
{
    !project_folder.is_empty() && contains(name, project_folder)
}

/// True if a `docker ps` row's stack kind matches the config's. Used to reject
/// a same-path container of the wrong kind.
pub fn row_stack_matches(dc: &Devcontainer, row: &PsRow) -> (r: bool)
    ensures
        r == same_kind(dc.deep_view(), row.deep_view()),
{
    let row_is_compose: bool = !row.compose_service.as_str().is_empty();
    row_is_compose == dc.is_compose()
}

/// What `docker inspect` is asked for the mount sources of a container.
pub open spec fn mount_sources_args(id: Seq<char>) -> Seq<Seq<char>> {
    inspect_args("{{range .Mounts}}{{.Source}}\n{{end}}"@, id)
}

/// What `docker inspect` is asked for the mount sources of a container.
pub fn mount_sources(id: &str) -> (r: Vec<String>)
    ensures
        r.deep_view() == mount_sources_args(id@),
{
    inspect("{{range .Mounts}}{{.Source}}\n{{end}}", id)
}

/// True if the container bind-mounts the project root, given what `docker
/// inspect` said of its mount sources.
pub fn mounts_project(sources: &Result<String, Error>, project_root: &str) -> (r: bool)
    ensures
        r == match sources {
            Ok(text) => mounts_root(text@, project_root@),
            Err(_) => false,
        },
{
    match sources {
        Ok(text) => {
            let all = lines(text.as_str());
            let ghost list = all.deep_view();
            let mut i: usize = 0;
            while i < all.len()
                invariant
                    list == all.deep_view(),
                    list == lines_of(text@),
                    sources matches Ok(t) && t@ == text@,
                    i <= all.len(),
                    forall|j: int| 0 <= j < i ==> trimmed(#[trigger] list[j]) != project_root@,
                decreases all.len() - i,
            {
                assert(list[i as int] == all@[i as int]@);
                if same(trim(all[i]), project_root) {
                    assert(trimmed(lines_of(text@)[i as int]) == project_root@);
                    return true;
                }
                i += 1;
            }
            false
        },
        Err(_) => false,
    }
}

// ---------------------------------------------------------------------------
// Looking through the rows
// ---------------------------------------------------------------------------

/// What a row can be known by.
enum Sign<'a> {
    /// It carries the project root as its `devcontainer.local_folder`, and is
    /// of the right kind.
    Labelled,
    /// It is this compose service.
    Service(&'a str),
    /// It is in a compose stack and named after the project's folder.
    Member,
    /// Its name holds the project's folder and this service, and it is no
    /// sidecar.
    NamedWith(&'a str),
    /// It is named after the project's folder, and is no sidecar.
    Named,
}

/// A sign as plain values.
pub enum SignView {
    Labelled,
    Service(Seq<char>),
    Member,
    NamedWith(Seq<char>),
    Named,
}

impl<'a> DeepView for Sign<'a> {
    type V = SignView;

    closed spec fn deep_view(&self) -> SignView {
        match self {
            Sign::Labelled => SignView::Labelled,
            Sign::Service(s) => SignView::Service(s@),
            Sign::Member => SignView::Member,
            Sign::NamedWith(s) => SignView::NamedWith(s@),
            Sign::Named => SignView::Named,
        }
    }
}

/// A row of a compose project that belongs to a stack. Where names are all
/// there is left to go by, such a row is a sidecar: the dev service, and every
/// member of the stack that mounts the project root, has been found before.
pub open spec fn in_stack(dc: DevcontainerView, r: PsRowView) -> bool {
    compose_based(dc) && r.compose_service.len() > 0
}

/// A row shows a sign.
pub open spec fn shows(dc: DevcontainerView, sign: SignView, r: PsRowView) -> bool {
    match sign {
        SignView::Labelled => r.local_folder == dc.project_root && same_kind(dc, r),
        SignView::Service(service) => r.compose_service == service,
        SignView::Member => r.compose_service.len() > 0 && named_after(r.name, folder_of(dc)),
        SignView::NamedWith(service) => {
            &&& !in_stack(dc, r)
            &&& named_after(r.name, folder_of(dc))
            &&& occurs(r.name, service)
        },
        SignView::Named => !in_stack(dc, r) && named_after(r.name, folder_of(dc)),
    }
}

/// The first row, from row `i` on, that shows a sign.
pub open spec fn first_row(
    dc: DevcontainerView,
    rows: Seq<PsRowView>,
    sign: SignView,
    i: int,
) -> Option<int>
    decreases rows.len() - i,
{
    if i >= rows.len() {
        None
    } else if shows(dc, sign, rows[i]) {
        Some(i)
    } else {
        first_row(dc, rows, sign, i + 1)
    }
}

/// The name of the project's folder; empty where the root has none.
fn project_folder(dc: &Devcontainer) -> (r: String)
    ensures
        r@ == folder_of(dc.deep_view()),
{
    match file_name(dc.project_root.as_str()) {
        Some(name) => name,
        None => String::new(),
    }
}

/// The first row, from row `from` on, that shows a sign.
fn seek_row(dc: &Devcontainer, rows: &Vec<PsRow>, sign: &Sign, from: usize) -> (r: Option<usize>)
    ensures
        match r {
            Some(i) => {
                &&& i < rows.len()
                &&& first_row(dc.deep_view(), rows.deep_view(), sign.deep_view(), from as int)
                    == Some(i as int)
            },
            None => first_row(
                dc.deep_view(),
                rows.deep_view(),
                sign.deep_view(),
                from as int,
            ) is None,
        },
{
    let folder = project_folder(dc);
    let ghost all = rows.deep_view();
    let ghost config = dc.deep_view();
    let mut i: usize = from;
    while i < rows.len()
        invariant
            all == rows.deep_view(),
            config == dc.deep_view(),
            folder@ == folder_of(config),
            from <= i,
            first_row(config, all, sign.deep_view(), from as int) == first_row(
                config,
                all,
                sign.deep_view(),
                i as int,
            ),
        decreases rows.len() - i,
    {
        let row = &rows[i];
        assert(all[i as int] == row.deep_view());
        let name = row.name.as_str();
        let hit: bool = match sign {
            Sign::Labelled => same(row.local_folder.as_str(), dc.project_root.as_str())
                && row_stack_matches(dc, row),
            Sign::Service(service) => same(row.compose_service.as_str(), service),
            Sign::Member => !row.compose_service.as_str().is_empty() && name_matches_project(
                name,
                folder.as_str(),
            ),
            Sign::NamedWith(service) => !(dc.is_compose() && !row.compose_service.as_str().is_empty())
                && name_matches_project(name, folder.as_str()) && contains(name, service),
            Sign::Named => !(dc.is_compose() && !row.compose_service.as_str().is_empty())
                && name_matches_project(name, folder.as_str()),
        };
        if hit {
            return Some(i);
        }
        i += 1;
    }
    None
}

// ---------------------------------------------------------------------------
// The search
// ---------------------------------------------------------------------------

/// What the search for the dev container waits for.
#[derive(Debug)]
pub enum FindState {
    /// The list of running containers.
    Listing,
    /// The text of a compose file, by its index.
    Inferring { rows: Vec<PsRow>, file: usize },
    /// The mount sources of the container of a row.
    Inspecting { rows: Vec<PsRow>, row: usize },
}

/// A [`FindState`] as plain values.
#[verifier::ext_equal]
pub enum FindStateView {
    Listing,
    Inferring { rows: Seq<PsRowView>, file: int },
    Inspecting { rows: Seq<PsRowView>, row: int },
}

impl DeepView for FindState {
    type V = FindStateView;

    open spec fn deep_view(&self) -> FindStateView {
        match self {
            FindState::Listing => FindStateView::Listing,
            FindState::Inferring { rows, file } => FindStateView::Inferring {
                rows: rows.deep_view(),
                file: *file as int,
            },
            FindState::Inspecting { rows, row } => FindStateView::Inspecting {
                rows: rows.deep_view(),
                row: *row as int,
            },
        }
    }
}

/// Where the search for the dev container stands.
#[derive(Debug)]
pub enum FindStep {
    /// Do what is asked for, then go on from the state with the answer.
    Wait(Request, FindState),
    /// The dev container, if one runs; or why that cannot be said.
    Done(Result<Option<Container>, Error>),
}

/// A [`FindStep`] as plain values.
#[verifier::ext_equal]
pub enum FindStepView {
    Wait(RequestView, FindStateView),
    Done(Result<Option<ContainerView>, ErrorView>),
}

impl DeepView for FindStep {
    type V = FindStepView;

    open spec fn deep_view(&self) -> FindStepView {
        match self {
            FindStep::Wait(q, s) => FindStepView::Wait(q.deep_view(), s.deep_view()),
            FindStep::Done(r) => FindStepView::Done(seen(*r)),
        }
    }
}

/// The file and row that a state speaks of are there.
pub open spec fn find_state_fits(dc: DevcontainerView, at: FindStateView) -> bool {
    match at {
        FindStateView::Listing => true,
        FindStateView::Inferring { rows, file } => 0 <= file < dc.compose_files.len(),
        FindStateView::Inspecting { rows, row } => 0 <= row < rows.len(),
    }
}

/// What a state waits for.
pub open spec fn find_request(dc: DevcontainerView, at: FindStateView) -> RequestView {
    match at {
        FindStateView::Listing => RequestView::Capture(ps_args()),
        FindStateView::Inferring { rows, file } => RequestView::Read(
            under(config_dir(dc.project_root), dc.compose_files[file]),
        ),
        FindStateView::Inspecting { rows, row } => RequestView::Capture(
            mount_sources_args(rows[row].id),
        ),
    }
}

/// The search waits in a state.
pub open spec fn find_wait(dc: DevcontainerView, at: FindStateView) -> FindStepView {
    FindStepView::Wait(find_request(dc, at), at)
}

/// The search ends at a row.
pub open spec fn find_row(rows: Seq<PsRowView>, i: int) -> FindStepView {
    FindStepView::Done(Ok(Some(container_of(rows[i]))))
}

/// The container that goes by the project's name and is no sidecar: one that
/// has the declared service in its name too, if there is one.
pub open spec fn find_by_name(dc: DevcontainerView, rows: Seq<PsRowView>) -> FindStepView {
    let named = first_row(dc, rows, SignView::Named, 0);
    let with_service = match dc.service {
        Some(service) => first_row(dc, rows, SignView::NamedWith(service), 0),
        None => None,
    };
    match (with_service, named) {
        (Some(i), _) => find_row(rows, i),
        (None, Some(i)) => find_row(rows, i),
        (None, None) => FindStepView::Done(Ok(None)),
    }
}

/// Look at the mounts of the stack members from row `i` on; where there are
/// no more, go by names.
pub open spec fn find_by_mount(dc: DevcontainerView, rows: Seq<PsRowView>, i: int) -> FindStepView {
    match first_row(dc, rows, SignView::Member, i) {
        Some(row) => find_wait(dc, FindStateView::Inspecting { rows, row }),
        None => find_by_name(dc, rows),
    }
}

/// Take the container of the dev service; where it does not run, go by mounts.
pub open spec fn find_by_service(
    dc: DevcontainerView,
    rows: Seq<PsRowView>,
    service: Seq<char>,
) -> FindStepView {
    match first_row(dc, rows, SignView::Service(service), 0) {
        Some(i) => find_row(rows, i),
        None => find_by_mount(dc, rows, 0),
    }
}

/// Look for the dev service in the compose files from file `file` on; where
/// there are no more, go by mounts.
pub open spec fn find_service(
    dc: DevcontainerView,
    rows: Seq<PsRowView>,
    file: int,
) -> FindStepView {
    if file < dc.compose_files.len() {
        find_wait(dc, FindStateView::Inferring { rows, file })
    } else {
        find_by_mount(dc, rows, 0)
    }
}

/// The rows are known: the exact label first, then the dev service of a
/// compose stack, then names.
pub open spec fn find_in(dc: DevcontainerView, rows: Seq<PsRowView>) -> FindStepView {
    match first_row(dc, rows, SignView::Labelled, 0) {
        Some(i) => find_row(rows, i),
        None => if !compose_based(dc) {
            find_by_name(dc, rows)
        } else {
            match dc.service {
                Some(service) => find_by_service(dc, rows, service),
                None => find_service(dc, rows, 0),
            }
        },
    }
}

/// The search goes on from a state with the answer it waited for.
pub open spec fn find_next(
    dc: DevcontainerView,
    at: FindStateView,
    reply: ReplyView,
) -> FindStepView {
    match at {
        FindStateView::Listing => match captured_text(ps_args(), reply->Ran_0) {
            Ok(text) => find_in(dc, ps_rows(text)),
            Err(e) => FindStepView::Done(Err(e)),
        },
        FindStateView::Inferring { rows, file } => {
            let service = match reply->Text_0 {
                Some(text) => workspace_service(text),
                None => None,
            };
            match service {
                Some(service) => find_by_service(dc, rows, service),
                None => find_service(dc, rows, file + 1),
            }
        },
        FindStateView::Inspecting { rows, row } => {
            let mounts = match captured_text(mount_sources_args(rows[row].id), reply->Ran_0) {
                Ok(text) => mounts_root(text, dc.project_root),
                Err(_) => false,
            };
            if mounts {
                find_row(rows, row)
            } else {
                find_by_mount(dc, rows, row + 1)
            }
        },
    }
}

fn by_name(dc: &Devcontainer, rows: &Vec<PsRow>) -> (r: FindStep)
    ensures
        r.deep_view() == find_by_name(dc.deep_view(), rows.deep_view()),
{
    if let Some(service) = &dc.service {
        if let Some(i) = seek_row(dc, rows, &Sign::NamedWith(service.as_str()), 0) {
            return FindStep::Done(Ok(Some(rows[i].container())));
        }
    }
    match seek_row(dc, rows, &Sign::Named, 0) {
        Some(i) => FindStep::Done(Ok(Some(rows[i].container()))),
        None => FindStep::Done(Ok(None)),
    }
}

fn by_mount(dc: &Devcontainer, rows: Vec<PsRow>, from: usize) -> (r: FindStep)
    ensures
        r.deep_view() == find_by_mount(dc.deep_view(), rows.deep_view(), from as int),
        r matches FindStep::Wait(_, s) ==> find_state_fits(dc.deep_view(), s.deep_view()),
{
    proof {
        lemma_first_row(dc.deep_view(), rows.deep_view(), SignView::Member, from as int);
    }
    match seek_row(dc, &rows, &Sign::Member, from) {
        Some(row) => {
            let args = mount_sources(rows[row].id.as_str());
            FindStep::Wait(Request::Capture(args), FindState::Inspecting { rows, row })
        },
        None => by_name(dc, &rows),
    }
}

fn by_service(dc: &Devcontainer, rows: Vec<PsRow>, service: &str) -> (r: FindStep)
    ensures
        r.deep_view() == find_by_service(dc.deep_view(), rows.deep_view(), service@),
        r matches FindStep::Wait(_, s) ==> find_state_fits(dc.deep_view(), s.deep_view()),
{
    match seek_row(dc, &rows, &Sign::Service(service), 0) {
        Some(i) => FindStep::Done(Ok(Some(rows[i].container()))),
        None => by_mount(dc, rows, 0),
    }
}

/// Infer the dev service from the compose files, one after the other: the
/// service whose `volumes` mount into `/workspaces`.
fn infer_dev_service(dc: &Devcontainer, rows: Vec<PsRow>, file: usize) -> (r: FindStep)
    ensures
        r.deep_view() == find_service(dc.deep_view(), rows.deep_view(), file as int),
        r matches FindStep::Wait(_, s) ==> find_state_fits(dc.deep_view(), s.deep_view()),
{
    if file < dc.compose_files.len() {
        let dir = join(dc.project_root.as_str(), ".devcontainer");
        let path = join(dir.as_str(), dc.compose_files[file].as_str());
        FindStep::Wait(Request::Read(path), FindState::Inferring { rows, file })
    } else {
        by_mount(dc, rows, 0)
    }
}

/// Go on with the search once the running containers are known.
pub fn find_in_rows(dc: &Devcontainer, rows: Vec<PsRow>) -> (r: FindStep)
    ensures
        r.deep_view() == find_in(dc.deep_view(), rows.deep_view()),
        r matches FindStep::Wait(_, s) ==> find_state_fits(dc.deep_view(), s.deep_view()),
{
    if let Some(i) = seek_row(dc, &rows, &Sign::Labelled, 0) {
        return FindStep::Done(Ok(Some(rows[i].container())));
    }
    if !dc.is_compose() {
        return by_name(dc, &rows);
    }
    match &dc.service {
        Some(service) => by_service(dc, rows, service.as_str()),
        None => infer_dev_service(dc, rows, 0),
    }
}

/// What `docker ps` is asked.
fn ps() -> (r: Vec<String>)
    ensures
        r.deep_view() == ps_args(),
{
    let r = strings(
        &[
            "ps",
            "--format",
            "{{.ID}}\t{{.Names}}\t{{.Label \"devcontainer.local_folder\"}}\t{{.Label \"com.docker.compose.service\"}}",
        ],
    );
    assert(r.deep_view() == ps_args());
    r
}

/// Find the running container that is the project's *dev container*: the
/// first step, which is to list the running containers.
///
/// This must be robust for compose stacks, where several services
/// (`<proj>-app-1`, `<proj>-postgres-1`, ...) all share the project name, and
/// only one of them is the dev container. Most reliable first:
///
///   1. `devcontainer.local_folder` label == the project root (exact), on a
///      container of the right kind.
///   2. Compose: the container whose `com.docker.compose.service` matches the
///      dev service: the one declared in devcontainer.json, else the first one
///      whose compose file mounts `/workspaces`; else a member of the stack
///      that bind-mounts the project root.
///   3. Name heuristic: a container name containing the project folder, but
///      only after ruling out obvious sidecars, and preferring the declared
///      service name if there is one. The sidecars of a compose project are
///      the members of a stack that step 2 did not take.
///
/// The end is `Ok(None)` when docker is reachable but nothing matches.
pub fn find(dc: &Devcontainer) -> (r: FindStep)
    ensures
        r.deep_view() == find_wait(dc.deep_view(), FindStateView::Listing),
        r matches FindStep::Wait(_, s) && find_state_fits(dc.deep_view(), s.deep_view()),
{
    FindStep::Wait(Request::Capture(ps()), FindState::Listing)
}

/// Go on with the search from a state, with the answer it waited for.
pub fn find_on(dc: &Devcontainer, at: FindState, reply: Reply) -> (r: FindStep)
    requires
        find_state_fits(dc.deep_view(), at.deep_view()),
        answers(reply.deep_view(), find_request(dc.deep_view(), at.deep_view())),
    ensures
        r.deep_view() == find_next(dc.deep_view(), at.deep_view(), reply.deep_view()),
        r matches FindStep::Wait(_, s) ==> find_state_fits(dc.deep_view(), s.deep_view()),
{
    match at {
        FindState::Listing => {
            if let Reply::Ran(outcome) = reply {
                match run_docker_text(&ps(), outcome) {
                    Ok(text) => find_in_rows(dc, parse_ps(text.as_str())),
                    Err(e) => FindStep::Done(Err(e)),
                }
            } else {
                FindStep::Done(Ok(None))
            }
        },
        FindState::Inferring { rows, file } => {
            let service = match reply {
                Reply::Text(Some(text)) => scan_workspace_service(text.as_str()),
                _ => None,
            };
            match service {
                Some(service) => by_service(dc, rows, service.as_str()),
                None => {
                    assert(file < dc.compose_files.len());
                    infer_dev_service(dc, rows, file + 1)
                },
            }
        },
        FindState::Inspecting { rows, row } => {
            assert(row < rows.len());
            if let Reply::Ran(outcome) = reply {
                assert(rows.deep_view()[row as int] == rows@[row as int].deep_view());
                let args = mount_sources(rows[row].id.as_str());
                let sources = run_docker_text(&args, outcome);
                if mounts_project(&sources, dc.project_root.as_str()) {
                    FindStep::Done(Ok(Some(rows[row].container())))
                } else {
                    by_mount(dc, rows, row + 1)
                }
            } else {
                FindStep::Done(Ok(None))
            }
        },
    }
}

/// A row that is found is there, shows the sign, and is the first to.
pub proof fn lemma_first_row(
    dc: DevcontainerView,
    rows: Seq<PsRowView>,
    sign: SignView,
    i: int,
)
    ensures
        match first_row(dc, rows, sign, i) {
            Some(k) => {
                &&& i <= k < rows.len()
                &&& shows(dc, sign, rows[k])
                &&& forall|j: int| i <= j < k ==> !shows(dc, sign, #[trigger] rows[j])
            },
            None => forall|j: int| i <= j < rows.len() ==> !shows(dc, sign, #[trigger] rows[j]),
        },
    decreases rows.len() - i,
{
    if i < rows.len() && !shows(dc, sign, rows[i]) {
        lemma_first_row(dc, rows, sign, i + 1);
    }
}

// ---------------------------------------------------------------------------
// Laws
// ---------------------------------------------------------------------------

/// A world that answers each request in kind.
pub open spec fn answers_all(world: spec_fn(RequestView) -> ReplyView) -> bool {
    forall|q: RequestView| answers(#[trigger] world(q), q)
}

/// The service that the compose files give from file `file` on, in a world.
pub open spec fn inferred_service(
    dc: DevcontainerView,
    world: spec_fn(RequestView) -> ReplyView,
    file: int,
) -> Option<Seq<char>>
    decreases dc.compose_files.len() - file,
{
    if file >= dc.compose_files.len() {
        None
    } else {
        let path = under(config_dir(dc.project_root), dc.compose_files[file]);
        let service = match world(RequestView::Read(path))->Text_0 {
            Some(text) => workspace_service(text),
            None => None,
        };
        match service {
            Some(service) => Some(service),
            None => inferred_service(dc, world, file + 1),
        }
    }
}

/// A container bind-mounts the project root, in a world.
pub open spec fn mounted(
    dc: DevcontainerView,
    world: spec_fn(RequestView) -> ReplyView,
    r: PsRowView,
) -> bool {
    let args = mount_sources_args(r.id);
    match captured_text(args, world(RequestView::Capture(args))->Ran_0) {
        Ok(text) => mounts_root(text, dc.project_root),
        Err(_) => false,
    }
}

/// The first member of the stack, from row `i` on, that bind-mounts the
/// project root in a world.
pub open spec fn first_mounted(
    dc: DevcontainerView,
    rows: Seq<PsRowView>,
    world: spec_fn(RequestView) -> ReplyView,
    i: int,
) -> Option<int>
    decreases rows.len() - i,
{
    if i >= rows.len() {
        None
    } else if shows(dc, SignView::Member, rows[i]) && mounted(dc, world, rows[i]) {
        Some(i)
    } else {
        first_mounted(dc, rows, world, i + 1)
    }
}

/// Which of the running containers is the dev container of a project, in a
/// world: the first sign that any of them shows decides.
pub open spec fn located_row(
    dc: DevcontainerView,
    rows: Seq<PsRowView>,
    world: spec_fn(RequestView) -> ReplyView,
) -> Option<int> {
    let service = match dc.service {
        Some(service) => Some(service),
        None => inferred_service(dc, world, 0),
    };
    let labelled = first_row(dc, rows, SignView::Labelled, 0);
    let serving = match service {
        Some(service) => first_row(dc, rows, SignView::Service(service), 0),
        None => None,
    };
    let named_with = match dc.service {
        Some(service) => first_row(dc, rows, SignView::NamedWith(service), 0),
        None => None,
    };
    if labelled is Some {
        labelled
    } else if compose_based(dc) && serving is Some {
        serving
    } else if compose_based(dc) && first_mounted(dc, rows, world, 0) is Some {
        first_mounted(dc, rows, world, 0)
    } else if named_with is Some {
        named_with
    } else {
        first_row(dc, rows, SignView::Named, 0)
    }
}

/// What the search comes to in a world.
pub open spec fn located(dc: DevcontainerView, world: spec_fn(RequestView) -> ReplyView) -> Result<
    Option<ContainerView>,
    ErrorView,
> {
    match captured_text(ps_args(), world(RequestView::Capture(ps_args()))->Ran_0) {
        Err(e) => Err(e),
        Ok(text) => match located_row(dc, ps_rows(text), world) {
            Some(i) => Ok(Some(container_of(ps_rows(text)[i]))),
            None => Ok(None),
        },
    }
}

/// Where the search stands after at most `steps` answers of a world.
pub open spec fn find_end(
    dc: DevcontainerView,
    step: FindStepView,
    world: spec_fn(RequestView) -> ReplyView,
    steps: nat,
) -> FindStepView
    decreases steps,
{
    match step {
        FindStepView::Wait(request, at) => if steps == 0 {
            step
        } else {
            find_end(dc, find_next(dc, at, world(request)), world, (steps - 1) as nat)
        },
        FindStepView::Done(_) => step,
    }
}

/// Mounts, then names.
spec fn by_mount_or_name(
    dc: DevcontainerView,
    rows: Seq<PsRowView>,
    world: spec_fn(RequestView) -> ReplyView,
    i: int,
) -> FindStepView {
    match first_mounted(dc, rows, world, i) {
        Some(k) => find_row(rows, k),
        None => find_by_name(dc, rows),
    }
}

/// Rows that are no members of the stack are passed over.
proof fn lemma_first_mounted_skips(
    dc: DevcontainerView,
    rows: Seq<PsRowView>,
    world: spec_fn(RequestView) -> ReplyView,
    i: int,
    k: int,
)
    requires
        0 <= i <= k <= rows.len(),
        forall|j: int| i <= j < k ==> !shows(dc, SignView::Member, #[trigger] rows[j]),
    ensures
        first_mounted(dc, rows, world, i) == first_mounted(dc, rows, world, k),
    decreases k - i,
{
    if i < k {
        lemma_first_mounted_skips(dc, rows, world, i + 1, k);
    }
}

proof fn lemma_by_mount(
    dc: DevcontainerView,
    rows: Seq<PsRowView>,
    world: spec_fn(RequestView) -> ReplyView,
    i: int,
    steps: nat,
)
    requires
        0 <= i <= rows.len(),
        steps > rows.len() - i,
    ensures
        find_end(dc, find_by_mount(dc, rows, i), world, steps) == by_mount_or_name(
            dc,
            rows,
            world,
            i,
        ),
    decreases rows.len() - i,
{
    lemma_first_row(dc, rows, SignView::Member, i);
    match first_row(dc, rows, SignView::Member, i) {
        Some(k) => {
            lemma_first_mounted_skips(dc, rows, world, i, k);
            let at = FindStateView::Inspecting { rows, row: k };
            let step = find_wait(dc, at);
            let reply = world(find_request(dc, at));
            assert(find_end(dc, step, world, steps) == find_end(
                dc,
                find_next(dc, at, reply),
                world,
                (steps - 1) as nat,
            ));
            if mounted(dc, world, rows[k]) {
                assert(find_next(dc, at, reply) == find_row(rows, k));
            } else {
                lemma_by_mount(dc, rows, world, k + 1, (steps - 1) as nat);
            }
        },
        None => {
            lemma_first_mounted_skips(dc, rows, world, i, rows.len() as int);
            assert(find_by_name(dc, rows) is Done);
        },
    }
}

spec fn by_service_mount_or_name(
    dc: DevcontainerView,
    rows: Seq<PsRowView>,
    world: spec_fn(RequestView) -> ReplyView,
    service: Option<Seq<char>>,
) -> FindStepView {
    let serving = match service {
        Some(service) => first_row(dc, rows, SignView::Service(service), 0),
        None => None,
    };
    match serving {
        Some(i) => find_row(rows, i),
        None => by_mount_or_name(dc, rows, world, 0),
    }
}

proof fn lemma_by_service(
    dc: DevcontainerView,
    rows: Seq<PsRowView>,
    world: spec_fn(RequestView) -> ReplyView,
    service: Seq<char>,
    steps: nat,
)
    requires
        steps > rows.len(),
    ensures
        find_end(dc, find_by_service(dc, rows, service), world, steps)
            == by_service_mount_or_name(dc, rows, world, Some(service)),
{
    match first_row(dc, rows, SignView::Service(service), 0) {
        Some(i) => {},
        None => {
            lemma_by_mount(dc, rows, world, 0, steps);
        },
    }
}

proof fn lemma_find_service(
    dc: DevcontainerView,
    rows: Seq<PsRowView>,
    world: spec_fn(RequestView) -> ReplyView,
    file: int,
    steps: nat,
)
    requires
        0 <= file <= dc.compose_files.len(),
        steps > rows.len() + (dc.compose_files.len() - file),
    ensures
        find_end(dc, find_service(dc, rows, file), world, steps) == by_service_mount_or_name(
            dc,
            rows,
            world,
            inferred_service(dc, world, file),
        ),
    decreases dc.compose_files.len() - file,
{
    if file < dc.compose_files.len() {
        let at = FindStateView::Inferring { rows, file };
        let reply = world(find_request(dc, at));
        let next = find_next(dc, at, reply);
        assert(find_end(dc, find_wait(dc, at), world, steps) == find_end(
            dc,
            next,
            world,
            (steps - 1) as nat,
        ));
        let service = match reply->Text_0 {
            Some(text) => workspace_service(text),
            None => None,
        };
        match service {
            Some(service) => {
                lemma_by_service(dc, rows, world, service, (steps - 1) as nat);
            },
            None => {
                lemma_find_service(dc, rows, world, file + 1, (steps - 1) as nat);
            },
        }
    } else {
        lemma_by_mount(dc, rows, world, 0, steps);
    }
}

/// Answered step by step, the search ends at the container that the first
/// sign to be shown at all gives: the exact label, the dev service, the mount
/// of the project root, the name. Where docker gives no list, it ends with
/// the error.
pub proof fn law_find_locates(
    dc: DevcontainerView,
    world: spec_fn(RequestView) -> ReplyView,
    steps: nat,
)
    requires
        answers_all(world),
        ({
            let listing = captured_text(ps_args(), world(RequestView::Capture(ps_args()))->Ran_0);
            steps > 1 + dc.compose_files.len() + match listing {
                Ok(text) => ps_rows(text).len(),
                Err(_) => 0,
            }
        }),
    ensures
        find_end(dc, find_wait(dc, FindStateView::Listing), world, steps) == FindStepView::Done(
            located(dc, world),
        ),
{
    let at = FindStateView::Listing;
    let reply = world(find_request(dc, at));
    let next = find_next(dc, at, reply);
    let left = (steps - 1) as nat;
    assert(find_end(dc, find_wait(dc, at), world, steps) == find_end(dc, next, world, left));
    match captured_text(ps_args(), reply->Ran_0) {
        Err(e) => {},
        Ok(text) => {
            let rows = ps_rows(text);
            if first_row(dc, rows, SignView::Labelled, 0) is None && compose_based(dc) {
                match dc.service {
                    Some(service) => {
                        lemma_by_service(dc, rows, world, service, left);
                    },
                    None => {
                        lemma_find_service(dc, rows, world, 0, left);
                    },
                }
            }
        },
    }
}

/// A running container of the right kind that carries the project root as its
/// label is found from the list alone, whatever its name and whatever else
/// runs.
pub proof fn law_label_decides(dc: DevcontainerView, rows: Seq<PsRowView>, i: int)
    requires
        0 <= i < rows.len(),
        shows(dc, SignView::Labelled, rows[i]),
    ensures
        exists|k: int|
            0 <= k <= i && shows(dc, SignView::Labelled, #[trigger] rows[k]) && find_in(dc, rows)
                == find_row(rows, k),
{
    lemma_first_row(dc, rows, SignView::Labelled, 0);
    let k = first_row(dc, rows, SignView::Labelled, 0)->Some_0;
    assert(shows(dc, SignView::Labelled, rows[k]));
}

/// No sidecar is taken for the dev container: what is found in a compose
/// project carries the label, is the dev service, mounts the project root, or
/// belongs to no stack.
pub proof fn law_sidecars_are_ruled_out(
    dc: DevcontainerView,
    rows: Seq<PsRowView>,
    world: spec_fn(RequestView) -> ReplyView,
)
    requires
        compose_based(dc),
    ensures
        located_row(dc, rows, world) matches Some(i) ==> {
            let service = match dc.service {
                Some(service) => Some(service),
                None => inferred_service(dc, world, 0),
            };
            &&& 0 <= i < rows.len()
            &&& {
                ||| shows(dc, SignView::Labelled, rows[i])
                ||| Some(rows[i].compose_service) == service
                ||| mounted(dc, world, rows[i])
                ||| rows[i].compose_service.len() == 0
            }
        },
{
    let service = match dc.service {
        Some(service) => Some(service),
        None => inferred_service(dc, world, 0),
    };
    lemma_first_row(dc, rows, SignView::Labelled, 0);
    lemma_first_row(dc, rows, SignView::Named, 0);
    lemma_first_mounted(dc, rows, world, 0);
    if let Some(service) = service {
        lemma_first_row(dc, rows, SignView::Service(service), 0);
    }
    if let Some(service) = dc.service {
        lemma_first_row(dc, rows, SignView::NamedWith(service), 0);
    }
}

/// A row that is found by its mount is there and mounts the project root.
proof fn lemma_first_mounted(
    dc: DevcontainerView,
    rows: Seq<PsRowView>,
    world: spec_fn(RequestView) -> ReplyView,
    i: int,
)
    ensures
        first_mounted(dc, rows, world, i) matches Some(k) ==> i <= k < rows.len() && mounted(
            dc,
            world,
            rows[k],
        ),
    decreases rows.len() - i,
{
    if i < rows.len() {
        lemma_first_mounted(dc, rows, world, i + 1);
    }
}

/// How far the search is from its end: what is left of a phase comes second,
/// after the phase.
pub open spec fn find_rank(dc: DevcontainerView, at: FindStateView) -> (int, int) {
    match at {
        FindStateView::Listing => (2, 0),
        FindStateView::Inferring { file, .. } => (1, dc.compose_files.len() - file),
        FindStateView::Inspecting { rows, row } => (0, rows.len() - row),
    }
}

/// Each answer brings the search nearer to its end.
pub proof fn law_find_goes_on(dc: DevcontainerView, at: FindStateView, reply: ReplyView)
    requires
        find_state_fits(dc, at),
    ensures
        find_next(dc, at, reply) matches FindStepView::Wait(_, next) ==> {
            &&& find_state_fits(dc, next)
            &&& find_rank(dc, next).0 >= 0 && find_rank(dc, next).1 >= 0
            &&& find_rank(dc, next).0 < find_rank(dc, at).0 || (find_rank(dc, next).0 == find_rank(
                dc,
                at,
            ).0 && find_rank(dc, next).1 < find_rank(dc, at).1)
        },
{
    match at {
        FindStateView::Listing => {
            let rows = ps_rows(captured_text(ps_args(), reply->Ran_0)->Ok_0);
            lemma_first_row(dc, rows, SignView::Member, 0);
        },
        FindStateView::Inferring { rows, file } => {
            lemma_first_row(dc, rows, SignView::Member, 0);
        },
        FindStateView::Inspecting { rows, row } => {
            lemma_first_row(dc, rows, SignView::Member, row + 1);
        },
    }
}

/// A container found by its label carries the project root as its
/// `devcontainer.local_folder`, character for character, and is of the
/// declared kind: the first such container is the one, and no other passes for
/// labelled.
pub proof fn law_label_is_exact(dc: DevcontainerView, rows: Seq<PsRowView>)
    ensures
        forall|i: int|
            0 <= i < rows.len() && (#[trigger] rows[i]).local_folder == dc.project_root && (
            rows[i].compose_service.len() > 0) == (dc.compose_files.len() > 0) && (forall|j: int|
                0 <= j < i ==> (#[trigger] rows[j]).local_folder != dc.project_root || (
                rows[j].compose_service.len() > 0) != (dc.compose_files.len() > 0)) ==> find_in(
                dc,
                rows,
            ) == FindStepView::Done(
                Ok(Some(ContainerView { id: rows[i].id, name: rows[i].name })),
            ),
        first_row(dc, rows, SignView::Labelled, 0) matches Some(k) ==> {
            &&& 0 <= k < rows.len()
            &&& rows[k].local_folder == dc.project_root
            &&& (rows[k].compose_service.len() > 0) == (dc.compose_files.len() > 0)
        },
{
    lemma_first_row(dc, rows, SignView::Labelled, 0);
    assert forall|i: int|
        0 <= i < rows.len() && (#[trigger] rows[i]).local_folder == dc.project_root && (
        rows[i].compose_service.len() > 0) == (dc.compose_files.len() > 0) && (forall|j: int|
            0 <= j < i ==> (#[trigger] rows[j]).local_folder != dc.project_root || (
            rows[j].compose_service.len() > 0) != (dc.compose_files.len() > 0)) implies find_in(
        dc,
        rows,
    ) == FindStepView::Done(Ok(Some(ContainerView { id: rows[i].id, name: rows[i].name }))) by {
        assert(shows(dc, SignView::Labelled, rows[i]));
        let k = first_row(dc, rows, SignView::Labelled, 0)->Some_0;
        assert(shows(dc, SignView::Labelled, rows[k]));
        if k < i {
            assert(rows[k].local_folder != dc.project_root || (rows[k].compose_service.len() > 0)
                != (dc.compose_files.len() > 0));
        }
        if i < k {
            assert(!shows(dc, SignView::Labelled, rows[i]));
        }
    }
}

/// No row carries the label of the project and is of its kind.
pub open spec fn none_labelled(dc: DevcontainerView, rows: Seq<PsRowView>) -> bool {
    forall|j: int|
        0 <= j < rows.len() ==> (#[trigger] rows[j]).local_folder != dc.project_root || (
        rows[j].compose_service.len() > 0) != (dc.compose_files.len() > 0)
}

proof fn lemma_none_labelled(dc: DevcontainerView, rows: Seq<PsRowView>)
    requires
        none_labelled(dc, rows),
    ensures
        first_row(dc, rows, SignView::Labelled, 0) is None,
{
    lemma_first_row(dc, rows, SignView::Labelled, 0);
    if first_row(dc, rows, SignView::Labelled, 0) is Some {
        let k = first_row(dc, rows, SignView::Labelled, 0)->Some_0;
        assert(shows(dc, SignView::Labelled, rows[k]));
    }
}

/// Where no container is labelled, the dev container of a compose project is
/// the first one of the dev service, by its whole name: the service that is
/// declared, or else the one that a compose file gives.
pub proof fn law_dev_service_is_exact(
    dc: DevcontainerView,
    rows: Seq<PsRowView>,
    service: Seq<char>,
    text: Seq<char>,
    file: int,
    i: int,
)
    requires
        dc.compose_files.len() > 0,
        none_labelled(dc, rows),
        0 <= i < rows.len(),
        rows[i].compose_service == service,
        forall|j: int| 0 <= j < i ==> (#[trigger] rows[j]).compose_service != service,
    ensures
        dc.service == Some(service) ==> find_in(dc, rows) == FindStepView::Done(
            Ok(Some(ContainerView { id: rows[i].id, name: rows[i].name })),
        ),
        workspace_service(text) == Some(service) ==> find_next(
            dc,
            FindStateView::Inferring { rows, file },
            ReplyView::Text(Some(text)),
        ) == FindStepView::Done(Ok(Some(ContainerView { id: rows[i].id, name: rows[i].name }))),
{
    lemma_none_labelled(dc, rows);
    lemma_first_row(dc, rows, SignView::Service(service), 0);
    assert(shows(dc, SignView::Service(service), rows[i]));
    let k = first_row(dc, rows, SignView::Service(service), 0)->Some_0;
    assert(shows(dc, SignView::Service(service), rows[k]));
    if k < i {
        assert(rows[k].compose_service != service);
    }
}

/// Where neither label nor declared service decides, the compose files are
/// read for the dev service, each of them in turn until one gives it.
pub proof fn law_compose_files_are_read_in_turn(
    dc: DevcontainerView,
    rows: Seq<PsRowView>,
    file: int,
    reply: ReplyView,
)
    requires
        dc.compose_files.len() > 0,
        0 <= file < dc.compose_files.len(),
    ensures
        none_labelled(dc, rows) && dc.service is None ==> find_in(dc, rows) == FindStepView::Wait(
            RequestView::Read(
                under(under(dc.project_root, ".devcontainer"@), dc.compose_files[0]),
            ),
            FindStateView::Inferring { rows, file: 0 },
        ),
        file + 1 < dc.compose_files.len() && (reply == ReplyView::Text(None) || (reply
            matches ReplyView::Text(Some(text)) && workspace_service(text) is None)) ==> find_next(
            dc,
            FindStateView::Inferring { rows, file },
            reply,
        ) == FindStepView::Wait(
            RequestView::Read(
                under(under(dc.project_root, ".devcontainer"@), dc.compose_files[file + 1]),
            ),
            FindStateView::Inferring { rows, file: file + 1 },
        ),
{
    if none_labelled(dc, rows) {
        lemma_none_labelled(dc, rows);
    }
}

/// A member of the stack that is looked at is the dev container if one of its
/// mount sources is the project root, character for character; if none is, it
/// is passed over, and so is every other member of a stack that does not mount
/// the root.
pub proof fn law_mount_of_the_root_decides(
    dc: DevcontainerView,
    rows: Seq<PsRowView>,
    row: int,
    stdout: Seq<u8>,
    stderr: Seq<u8>,
)
    requires
        dc.compose_files.len() > 0,
        0 <= row < rows.len(),
    ensures
        ({
            let reply = ReplyView::Ran(
                crate::request::OutcomeView::Exited { success: true, stdout, stderr },
            );
            let sources = lines_of(crate::request::utf8_lossy(stdout));
            let next = find_next(dc, FindStateView::Inspecting { rows, row }, reply);
            let mounted = exists|i: int|
                0 <= i < sources.len() && trimmed(#[trigger] sources[i]) == dc.project_root;
            &&& mounted ==> next == FindStepView::Done(
                Ok(Some(ContainerView { id: rows[row].id, name: rows[row].name })),
            )
            &&& !mounted ==> match next {
                FindStepView::Wait(request, FindStateView::Inspecting { rows: same_rows, row: k }) => {
                    &&& same_rows == rows
                    &&& row < k < rows.len()
                    &&& rows[k].compose_service.len() > 0
                    &&& request == RequestView::Capture(
                        seq![
                            "inspect"@,
                            "-f"@,
                            "{{range .Mounts}}{{.Source}}\n{{end}}"@,
                            rows[k].id,
                        ],
                    )
                },
                FindStepView::Wait(..) => false,
                FindStepView::Done(Ok(Some(c))) => exists|k: int|
                    0 <= k < rows.len() && (#[trigger] rows[k]).compose_service.len() == 0 && c
                        == (ContainerView { id: rows[k].id, name: rows[k].name }),
                FindStepView::Done(Ok(None)) => true,
                FindStepView::Done(Err(_)) => false,
            }
        }),
{
    let reply = ReplyView::Ran(
        crate::request::OutcomeView::Exited { success: true, stdout, stderr },
    );
    let sources = lines_of(crate::request::utf8_lossy(stdout));
    let next = find_next(dc, FindStateView::Inspecting { rows, row }, reply);
    let mounted = exists|i: int|
        0 <= i < sources.len() && trimmed(#[trigger] sources[i]) == dc.project_root;
    assert(mounted == mounts_root(crate::request::utf8_lossy(stdout), dc.project_root));
    if !mounted {
        lemma_first_row(dc, rows, SignView::Member, row + 1);
        lemma_first_row(dc, rows, SignView::Named, 0);
        if let Some(service) = dc.service {
            lemma_first_row(dc, rows, SignView::NamedWith(service), 0);
        }
        if let FindStepView::Done(Ok(Some(c))) = next {
            let with_service = match dc.service {
                Some(service) => first_row(dc, rows, SignView::NamedWith(service), 0),
                None => None,
            };
            let k = match with_service {
                Some(k) => k,
                None => first_row(dc, rows, SignView::Named, 0)->Some_0,
            };
            assert(!in_stack(dc, rows[k]));
            assert(rows[k].compose_service.len() == 0);
        }
    }
}

/// Every member of the stack that goes by the project's folder is looked at
/// before names decide: the first one first.
pub proof fn law_members_are_looked_at_first(
    dc: DevcontainerView,
    rows: Seq<PsRowView>,
    service: Seq<char>,
    folder: Seq<char>,
    i: int,
)
    requires
        dc.compose_files.len() > 0,
        none_labelled(dc, rows),
        dc.service == Some(service),
        forall|j: int| 0 <= j < rows.len() ==> (#[trigger] rows[j]).compose_service != service,
        base(dc.project_root) == Some(folder),
        folder.len() > 0,
        0 <= i < rows.len(),
        rows[i].compose_service.len() > 0,
        occurs(rows[i].name, folder),
        forall|j: int|
            0 <= j < i ==> (#[trigger] rows[j]).compose_service.len() == 0 || !occurs(
                rows[j].name,
                folder,
            ),
    ensures
        find_in(dc, rows) == FindStepView::Wait(
            RequestView::Capture(
                seq!["inspect"@, "-f"@, "{{range .Mounts}}{{.Source}}\n{{end}}"@, rows[i].id],
            ),
            FindStateView::Inspecting { rows, row: i },
        ),
{
    lemma_none_labelled(dc, rows);
    lemma_first_row(dc, rows, SignView::Service(service), 0);
    if first_row(dc, rows, SignView::Service(service), 0) is Some {
        let k = first_row(dc, rows, SignView::Service(service), 0)->Some_0;
        assert(shows(dc, SignView::Service(service), rows[k]));
    }
    lemma_first_row(dc, rows, SignView::Member, 0);
    assert(shows(dc, SignView::Member, rows[i]));
    let k = first_row(dc, rows, SignView::Member, 0)->Some_0;
    assert(shows(dc, SignView::Member, rows[k]));
    if k < i {
        assert(rows[k].compose_service.len() == 0 || !occurs(rows[k].name, folder));
    }
}

/// Where an image project has no labelled container, the first one whose name
/// holds the project's folder is taken; one that also holds the declared
/// service is preferred. None is taken only where no name holds the folder.
pub proof fn law_name_holds_the_folder(
    dc: DevcontainerView,
    rows: Seq<PsRowView>,
    folder: Seq<char>,
)
    requires
        dc.compose_files.len() == 0,
        none_labelled(dc, rows),
        base(dc.project_root) == Some(folder),
        folder.len() > 0,
    ensures
        match find_in(dc, rows) {
            FindStepView::Done(Ok(Some(c))) => exists|k: int|
                0 <= k < rows.len() && c == (ContainerView {
                    id: (#[trigger] rows[k]).id,
                    name: rows[k].name,
                }) && occurs(rows[k].name, folder) && {
                    ||| dc.service matches Some(service) && occurs(rows[k].name, service) && forall|
                        j: int,
                    |
                        0 <= j < k ==> !(occurs((#[trigger] rows[j]).name, folder) && occurs(
                            rows[j].name,
                            service,
                        ))
                    ||| (forall|j: int|
                        0 <= j < k ==> !occurs((#[trigger] rows[j]).name, folder)) && (dc.service
                        matches Some(service) ==> forall|j: int|
                        0 <= j < rows.len() ==> !(occurs((#[trigger] rows[j]).name, folder)
                            && occurs(rows[j].name, service)))
                },
            FindStepView::Done(Ok(None)) => forall|j: int|
                0 <= j < rows.len() ==> !occurs((#[trigger] rows[j]).name, folder),
            _ => false,
        },
{
    lemma_none_labelled(dc, rows);
    lemma_first_row(dc, rows, SignView::Named, 0);
    let named = first_row(dc, rows, SignView::Named, 0);
    assert forall|j: int| 0 <= j < rows.len() implies occurs((#[trigger] rows[j]).name, folder)
        == shows(dc, SignView::Named, rows[j]) by {}
    if let Some(service) = dc.service {
        lemma_first_row(dc, rows, SignView::NamedWith(service), 0);
        assert forall|j: int| 0 <= j < rows.len() implies (occurs(
            (#[trigger] rows[j]).name,
            folder,
        ) && occurs(rows[j].name, service)) == shows(
            dc,
            SignView::NamedWith(service),
            rows[j],
        ) by {}
        if let Some(k) = first_row(dc, rows, SignView::NamedWith(service), 0) {
            assert(occurs(rows[k].name, folder) && occurs(rows[k].name, service));
        } else if let Some(k) = named {
            assert(occurs(rows[k].name, folder));
        }
    } else if let Some(k) = named {
        assert(occurs(rows[k].name, folder));
    }
}

/// A line of four fields with tabs between them makes a row of those fields.
pub proof fn law_ps_line_makes_a_row(
    id: Seq<char>,
    name: Seq<char>,
    folder: Seq<char>,
    service: Seq<char>,
)
    requires
        !id.contains('\t'),
        !name.contains('\t'),
        !folder.contains('\t'),
    ensures
        ps_row(id + seq!['\t'] + (name + seq!['\t'] + (folder + seq!['\t'] + service))) == Some(
            PsRowView {
                id,
                name: trimmed(name),
                local_folder: trimmed(folder),
                compose_service: trimmed(service),
            },
        ),
        ps_row(id) is None,
{
    let c = folder + seq!['\t'] + service;
    let b = name + seq!['\t'] + c;
    let a = id + seq!['\t'] + b;
    assert(cut_at(c, '\t', folder, service));
    assert(cut_at(b, '\t', name, c));
    assert(cut_at(a, '\t', id, b));
    law_first_pieces(a, '\t', id, b, 4);
    law_first_pieces(b, '\t', name, c, 3);
    law_first_pieces(c, '\t', folder, service, 2);
    law_first_pieces(service, '\t', id, b, 1);
    assert(first_pieces(a, '\t', 4) == seq![id, name, folder, service]);
    law_first_pieces(id, '\t', id, b, 4);
}

/// The rows follow the lines: that of the first line, if it makes one, and
/// then those of the others.
pub proof fn law_ps_rows_follow_the_lines(text: Seq<char>, line: Seq<char>, rest: Seq<char>)
    requires
        cut_at(text, '\n', line, rest),
        line.len() > 0 ==> line.last() != '\r',
    ensures
        ps_rows(text) == match ps_row(line) {
            Some(row) => seq![row] + ps_rows(rest),
            None => ps_rows(rest),
        },
        ps_rows(Seq::<char>::empty()).len() == 0,
{
    let parse = |l: Seq<char>| ps_row(l);
    law_lines(text, line, rest);
    law_lines(Seq::<char>::empty(), line, rest);
    lemma_filter_map_parts(seq![line], lines_of(rest), parse);
    lemma_filter_map_one(line, parse);
    if ps_row(line) is None {
        assert(Seq::<PsRowView>::empty() + ps_rows(rest) == ps_rows(rest));
    }
}

/// Docker is asked for what a row holds: the id, the name, and the two labels,
/// in that order.
pub proof fn law_ps_asks_for_the_fields()
    ensures
        ps_args().len() == 3,
        ps_args()[0] == "ps"@,
        ps_args()[1] == "--format"@,
        ps_args()[2] == "{{.ID}}\t{{.Names}}\t{{.Label \"devcontainer.local_folder\"}}\t{{.Label \"com.docker.compose.service\"}}"@,
{
}

} // verus!

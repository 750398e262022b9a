//! Locate the project's `.devcontainer` and read the bits of
//! `devcontainer.json` that `devcon` needs: how to bring the stack up (`image`
//! vs `dockerComposeFile`), where the workspace lives inside the container
//! (`workspaceFolder`), the user to exec as, the lifecycle commands, and the
//! ports to forward.

use crate::number::{decimal, is_number, law_decimal_reads_back, parse_usize, unsigned};
use crate::path::{
    above, base, file_name, join, law_above_is_the_directory, law_base_is_the_last_name, law_under,
    lemma_above_shorter, parent, plain_name, under,
};
use crate::table::{ordered, Table};
use crate::text::{
    before, cut_at, index_of, is_before, law_first_is_replaced, law_nothing_is_replaced,
    law_pieces_in_parts, law_pieces_make_the_text, lemma_before_irreflexive,
    lemma_before_transitive, lemma_cut_at, lemma_filter_map_one, lemma_filter_map_parts,
    lemma_index_cuts, occurs, pieces, replace, replaced, split, stands_at,
};
use vstd::prelude::*;

verus! {

// ---------------------------------------------------------------------------
// Types
// ---------------------------------------------------------------------------

/// Where the parsed `devcontainer.json` lives and what it declares.
#[derive(Debug, Clone)]
pub struct Devcontainer {
    /// The project root (the directory *containing* `.devcontainer`).
    pub project_root: String,
    /// The `devcontainer.json` itself.
    pub config_file: String,
    /// `build.dockerfile`, or the legacy `dockerFile`.
    pub dockerfile: Option<String>,
    /// `image` field, if the container is image-based.
    pub image: Option<String>,
    /// `dockerComposeFile` entries, if the container is compose-based.
    pub compose_files: Vec<String>,
    /// `service` field (compose-based: which service is the dev container).
    pub service: Option<String>,
    /// `runServices` (compose-based: services to start alongside `service`).
    pub run_services: Vec<String>,
    /// `workspaceFolder`, raw (may still contain `${...}` variables).
    pub workspace_folder: Option<String>,
    /// `remoteUser`: who a shell/exec should run as.
    pub remote_user: Option<String>,
    /// `postCreateCommand`, normalized to a list of commands.
    pub post_create: Vec<PostCreateCommand>,
    /// `postStartCommand`, normalized to a list of commands.
    pub post_start: Vec<PostCreateCommand>,
    /// `forwardPorts`.
    pub forward_ports: Vec<PortForward>,
    /// `name`, purely informational.
    pub name: Option<String>,
}

/// A single lifecycle command. A string is run via the shell, an array as an
/// argv vector; an object of named commands makes a list of them.
#[derive(Debug, Clone)]
pub enum PostCreateCommand {
    /// Run through `sh -c`.
    Shell(String),
    /// Run as an argv vector, no shell interpolation.
    Argv(Vec<String>),
}

/// One port to forward from the host into the container's network.
#[derive(Debug, Clone)]
pub struct PortForward {
    /// The host to connect to, as seen from inside the container.
    pub target_host: String,
    /// The port to connect to there.
    pub container_port: u16,
    /// The host port asked for; another is taken where this one is busy.
    pub desired_host_port: u16,
}

/// A [`Devcontainer`] as plain values.
#[verifier::ext_equal]
pub struct DevcontainerView {
    pub project_root: Seq<char>,
    pub config_file: Seq<char>,
    pub dockerfile: Option<Seq<char>>,
    pub image: Option<Seq<char>>,
    pub compose_files: Seq<Seq<char>>,
    pub service: Option<Seq<char>>,
    pub run_services: Seq<Seq<char>>,
    pub workspace_folder: Option<Seq<char>>,
    pub remote_user: Option<Seq<char>>,
    pub post_create: Seq<CommandView>,
    pub post_start: Seq<CommandView>,
    pub forward_ports: Seq<PortForwardView>,
    pub name: Option<Seq<char>>,
}

/// A [`PostCreateCommand`] as plain values.
#[verifier::ext_equal]
pub enum CommandView {
    Shell(Seq<char>),
    Argv(Seq<Seq<char>>),
}

/// A [`PortForward`] as plain values.
#[verifier::ext_equal]
pub struct PortForwardView {
    pub target_host: Seq<char>,
    pub container_port: u16,
    pub desired_host_port: u16,
}

impl DeepView for Devcontainer {
    type V = DevcontainerView;

    open spec fn deep_view(&self) -> DevcontainerView {
        DevcontainerView {
            project_root: self.project_root@,
            config_file: self.config_file@,
            dockerfile: self.dockerfile.deep_view(),
            image: self.image.deep_view(),
            compose_files: self.compose_files.deep_view(),
            service: self.service.deep_view(),
            run_services: self.run_services.deep_view(),
            workspace_folder: self.workspace_folder.deep_view(),
            remote_user: self.remote_user.deep_view(),
            post_create: self.post_create.deep_view(),
            post_start: self.post_start.deep_view(),
            forward_ports: self.forward_ports.deep_view(),
            name: self.name.deep_view(),
        }
    }
}

impl DeepView for PostCreateCommand {
    type V = CommandView;

    open spec fn deep_view(&self) -> CommandView {
        match self {
            PostCreateCommand::Shell(s) => CommandView::Shell(s@),
            PostCreateCommand::Argv(v) => CommandView::Argv(v.deep_view()),
        }
    }
}

impl DeepView for PortForward {
    type V = PortForwardView;

    open spec fn deep_view(&self) -> PortForwardView {
        PortForwardView {
            target_host: self.target_host@,
            container_port: self.container_port,
            desired_host_port: self.desired_host_port,
        }
    }
}

/// Why there is no configuration to work with.
#[derive(Debug)]
pub enum Error {
    /// There is no `devcontainer.json`.
    NotFound,
    /// The file (first) cannot be parsed, and why (second).
    Parse(String, String),
    /// The file cannot be read.
    Io(String),
}

// ---------------------------------------------------------------------------
// Finding the project
// ---------------------------------------------------------------------------

/// Where the search for the project root stands.
pub enum RootSearch {
    /// Is `probe` a directory? It decides on `dir`.
    Probe { dir: String, probe: String },
    /// The directory that contains `.devcontainer`.
    Found(String),
    /// No directory on the way up has one.
    NotFound,
}

/// A [`RootSearch`] as plain values.
#[verifier::ext_equal]
pub enum RootSearchView {
    Probe { dir: Seq<char>, probe: Seq<char> },
    Found(Seq<char>),
    NotFound,
}

impl DeepView for RootSearch {
    type V = RootSearchView;

    open spec fn deep_view(&self) -> RootSearchView {
        match self {
            RootSearch::Probe { dir, probe } => RootSearchView::Probe { dir: dir@, probe: probe@ },
            RootSearch::Found(dir) => RootSearchView::Found(dir@),
            RootSearch::NotFound => RootSearchView::NotFound,
        }
    }
}

/// The search has come to `dir`.
pub open spec fn search_at(dir: Seq<char>) -> RootSearchView {
    RootSearchView::Probe { dir, probe: under(dir, ".devcontainer"@) }
}

/// The search goes on from `dir`, whose `.devcontainer` is there or not.
pub open spec fn search_on(dir: Seq<char>, present: bool) -> RootSearchView {
    if present {
        RootSearchView::Found(dir)
    } else {
        match above(dir) {
            Some(up) => search_at(up),
            None => RootSearchView::NotFound,
        }
    }
}

/// Walk upward from `start` until a directory contains `.devcontainer`: the
/// first directory to look at.
pub fn find_project_root(start: &str) -> (r: RootSearch)
    ensures
        r.deep_view() == search_at(start@),
{
    RootSearch::Probe { dir: start.to_owned(), probe: join(start, ".devcontainer") }
}

/// Go on with the walk, given whether `dir` contains `.devcontainer`.
pub fn find_project_root_on(dir: String, present: bool) -> (r: RootSearch)
    ensures
        r.deep_view() == search_on(dir@, present),
{
    if present {
        return RootSearch::Found(dir);
    }
    match parent(dir.as_str()) {
        Some(up) => find_project_root(up),
        None => RootSearch::NotFound,
    }
}

/// The nearest directory at or above `dir` that holds a `.devcontainer`,
/// where `is_dir` says which paths are directories.
pub open spec fn nearest_root(dir: Seq<char>, is_dir: spec_fn(Seq<char>) -> bool) -> Option<
    Seq<char>,
>
    decreases dir.len(),
{
    if is_dir(under(dir, ".devcontainer"@)) {
        Some(dir)
    } else {
        proof {
            lemma_above_shorter(dir);
        }
        match above(dir) {
            Some(up) => nearest_root(up, is_dir),
            None => None,
        }
    }
}

/// Where the search ends up after at most `steps` answers.
pub open spec fn search_end(
    at: RootSearchView,
    is_dir: spec_fn(Seq<char>) -> bool,
    steps: nat,
) -> RootSearchView
    decreases steps,
{
    match at {
        RootSearchView::Probe { dir, probe } => if steps == 0 {
            at
        } else {
            search_end(search_on(dir, is_dir(probe)), is_dir, (steps - 1) as nat)
        },
        _ => at,
    }
}

/// Answered step by step, the search ends at the nearest directory at or
/// above its start that holds a `.devcontainer`, or finds none.
pub proof fn law_search_finds_nearest(
    start: Seq<char>,
    is_dir: spec_fn(Seq<char>) -> bool,
    steps: nat,
)
    requires
        steps > start.len(),
    ensures
        search_end(search_at(start), is_dir, steps) == match nearest_root(start, is_dir) {
            Some(dir) => RootSearchView::Found(dir),
            None => RootSearchView::NotFound,
        },
    decreases start.len(),
{
    lemma_above_shorter(start);
    let at = search_at(start);
    let present = is_dir(under(start, ".devcontainer"@));
    let next = search_on(start, present);
    assert(search_end(at, is_dir, steps) == search_end(next, is_dir, (steps - 1) as nat));
    if !present && above(start) is Some {
        law_search_finds_nearest(above(start)->Some_0, is_dir, (steps - 1) as nat);
    } else {
        assert(search_end(next, is_dir, (steps - 1) as nat) == next);
    }
}

// ---------------------------------------------------------------------------
// The configuration file
// ---------------------------------------------------------------------------

/// The directory of a project's dev-container files.
pub open spec fn config_dir(project_root: Seq<char>) -> Seq<char> {
    under(project_root, ".devcontainer"@)
}

/// The configuration file of the nested layout, by its directory's name.
pub open spec fn nested_config(project_root: Seq<char>, name: Seq<char>) -> Seq<char> {
    under(under(config_dir(project_root), name), "devcontainer.json"@)
}

/// No name of the list stands before its `i`-th.
pub open spec fn is_first_name(list: Seq<Seq<char>>, i: int) -> bool {
    &&& 0 <= i < list.len()
    &&& forall|j: int| 0 <= j < list.len() ==> !before(#[trigger] list[j], list[i])
}

/// Locate `devcontainer.json` under `project_root`: the flat layout
/// (`.devcontainer/devcontainer.json`) if that is a file, or else the first of
/// the nested layout (`.devcontainer/<name>/devcontainer.json`) in the order
/// of the names. `nested` are the names of the directories in `.devcontainer`
/// that hold one; `None` if it cannot be listed.
pub fn config_path(project_root: &str, flat_is_file: bool, nested: &Option<Vec<String>>) -> (r:
    Option<String>)
    ensures
        flat_is_file ==> r.deep_view() == Some(
            under(config_dir(project_root@), "devcontainer.json"@),
        ),
        !flat_is_file ==> match nested {
            None => r is None,
            Some(list) => {
                &&& list@.len() == 0 ==> r is None
                &&& list@.len() > 0 ==> exists|i: int| #[trigger]
                    is_first_name(list.deep_view(), i) && r.deep_view() == Some(
                        nested_config(project_root@, list.deep_view()[i]),
                    )
            },
        },
{
    let dir = join(project_root, ".devcontainer");
    if flat_is_file {
        return Some(join(dir.as_str(), "devcontainer.json"));
    }
    match nested {
        None => None,
        Some(list) => {
            if list.len() == 0 {
                return None;
            }
            let ghost names = list.deep_view();
            let mut least: usize = 0;
            let mut i: usize = 1;
            proof {
                lemma_before_irreflexive(names[0]);
            }
            while i < list.len()
                invariant
                    names == list.deep_view(),
                    least < i <= list.len(),
                    forall|j: int|
                        0 <= j < i ==> !before(#[trigger] names[j], names[least as int]),
                decreases list.len() - i,
            {
                assert(names[i as int] == list@[i as int]@);
                assert(names[least as int] == list@[least as int]@);
                if is_before(list[i].as_str(), list[least].as_str()) {
                    proof {
                        let new = names[i as int];
                        let was = names[least as int];
                        lemma_before_irreflexive(new);
                        assert forall|j: int| 0 <= j < i implies !before(
                            #[trigger] names[j],
                            new,
                        ) by {
                            if before(names[j], new) {
                                lemma_before_transitive(names[j], new, was);
                            }
                        }
                    }
                    least = i;
                }
                i += 1;
            }
            assert(is_first_name(names, least as int));
            assert(names[least as int] == list@[least as int]@);
            let sub = join(dir.as_str(), list[least].as_str());
            Some(join(sub.as_str(), "devcontainer.json"))
        },
    }
}

/// The raw JSON shape (only the fields that matter here).
pub struct Raw {
    pub name: Option<String>,
    pub image: Option<String>,
    /// `dockerComposeFile`.
    pub docker_compose_file: StringOrVec,
    pub service: Option<String>,
    /// `runServices`.
    pub run_services: Vec<String>,
    /// `workspaceFolder`.
    pub workspace_folder: Option<String>,
    /// `remoteUser`.
    pub remote_user: Option<String>,
    /// `postCreateCommand`.
    pub post_create_command: CommandField,
    /// `postStartCommand`.
    pub post_start_command: CommandField,
    /// `build.dockerfile`.
    pub build_dockerfile: Option<String>,
    /// `dockerFile`, the legacy form.
    pub docker_file: Option<String>,
    /// `forwardPorts`.
    pub forward_ports: Vec<PortField>,
}

/// `dockerComposeFile` is a string or an array of strings.
pub enum StringOrVec {
    Absent,
    One(String),
    Many(Vec<String>),
}

impl StringOrVec {
    /// The strings, however they were given.
    pub fn into_vec(self) -> (r: Vec<String>)
        ensures
            r@ == match self {
                StringOrVec::Absent => Seq::<String>::empty(),
                StringOrVec::One(s) => seq![s],
                StringOrVec::Many(v) => v@,
            },
    {
        match self {
            StringOrVec::Absent => Vec::new(),
            StringOrVec::One(s) => {
                let mut r: Vec<String> = Vec::new();
                r.push(s);
                r
            },
            StringOrVec::Many(v) => v,
        }
    }
}

/// A lifecycle command field: string | array | object-of-commands | absent.
pub enum CommandField {
    Absent,
    Shell(String),
    Argv(Vec<String>),
    /// Commands by name, in the order of the names.
    Named(Table<CommandValue>),
}

/// A single value inside the object form of a lifecycle command.
pub enum CommandValue {
    Shell(String),
    Argv(Vec<String>),
}

/// The command that a value stands for.
pub open spec fn command_of(v: CommandValue) -> PostCreateCommand {
    match v {
        CommandValue::Shell(s) => PostCreateCommand::Shell(s),
        CommandValue::Argv(a) => PostCreateCommand::Argv(a),
    }
}

impl CommandField {
    /// The commands that the field gives, in order.
    pub open spec fn commands(self) -> Seq<PostCreateCommand> {
        match self {
            CommandField::Absent => seq![],
            CommandField::Shell(s) => seq![PostCreateCommand::Shell(s)],
            CommandField::Argv(v) => seq![PostCreateCommand::Argv(v)],
            CommandField::Named(t) => t.values().map_values(|v: CommandValue| command_of(v)),
        }
    }

    /// The commands that the field gives; named ones in the order of their
    /// names.
    pub fn into_commands(self) -> (r: Vec<PostCreateCommand>)
        ensures
            r@ == self.commands(),
            self matches CommandField::Named(t) ==> {
                &&& ordered(t.keys())
                &&& t.keys().len() == r@.len()
                &&& forall|i: int|
                    0 <= i < r@.len() ==> #[trigger] r@[i] == command_of(t.values()[i])
            },
    {
        let mut r: Vec<PostCreateCommand> = Vec::new();
        match self {
            CommandField::Absent => {},
            CommandField::Shell(s) => {
                r.push(PostCreateCommand::Shell(s));
            },
            CommandField::Argv(v) => {
                r.push(PostCreateCommand::Argv(v));
            },
            CommandField::Named(t) => {
                let ghost values = t.values();
                let mut left = t.into_values();
                let n: usize = left.len();
                // Taken from the back, then put in order again.
                let mut back: Vec<PostCreateCommand> = Vec::new();
                while left.len() > 0
                    invariant
                        n == values.len(),
                        left@ == values.take(left@.len() as int),
                        left@.len() <= n,
                        back@.len() == n - left@.len(),
                        forall|i: int|
                            0 <= i < back@.len() ==> #[trigger] back@[i] == command_of(
                                values[n - 1 - i],
                            ),
                    decreases left@.len(),
                {
                    let ghost had = left@;
                    if let Some(v) = left.pop() {
                        assert(v == values[had.len() - 1]);
                        assert(left@ == values.take(left@.len() as int));
                        back.push(
                            match v {
                                CommandValue::Shell(s) => PostCreateCommand::Shell(s),
                                CommandValue::Argv(a) => PostCreateCommand::Argv(a),
                            },
                        );
                    }
                }
                while back.len() > 0
                    invariant
                        n == values.len(),
                        back@.len() <= n,
                        r@.len() == n - back@.len(),
                        forall|i: int|
                            0 <= i < back@.len() ==> #[trigger] back@[i] == command_of(
                                values[n - 1 - i],
                            ),
                        forall|i: int|
                            0 <= i < r@.len() ==> #[trigger] r@[i] == command_of(values[i]),
                    decreases back@.len(),
                {
                    let ghost had = back@;
                    if let Some(c) = back.pop() {
                        assert(c == had[had.len() - 1]);
                        r.push(c);
                    }
                }
                assert(r@ == values.map_values(|v: CommandValue| command_of(v)));
            },
        }
        r
    }
}

/// One entry of `forwardPorts`: a port number, or `"host:port"`.
pub enum PortField {
    Port(u16),
    Target(String),
}

/// What an entry of `forwardPorts` asks for; nothing if it names no port.
pub open spec fn port_target(f: PortField) -> Option<PortForwardView> {
    match f {
        PortField::Port(p) => Some(
            PortForwardView { target_host: "localhost"@, container_port: p, desired_host_port: p },
        ),
        PortField::Target(s) => {
            let n = index_of(s@, ':') as int;
            let (host, port) = if n < s@.len() {
                (s@.take(n), s@.skip(n + 1))
            } else {
                ("localhost"@, s@)
            };
            match unsigned(port) {
                Some(p) => if p <= u16::MAX {
                    Some(
                        PortForwardView {
                            target_host: host,
                            container_port: p as u16,
                            desired_host_port: p as u16,
                        },
                    )
                } else {
                    None
                },
                None => None,
            }
        },
    }
}

impl PortField {
    /// The port to forward that an entry asks for; nothing if it names no
    /// port.
    pub fn target(&self) -> (r: Option<PortForward>)
        ensures
            r.deep_view() == port_target(*self),
    {
        match self {
            PortField::Port(p) => Some(
                PortForward {
                    target_host: "localhost".to_owned(),
                    container_port: *p,
                    desired_host_port: *p,
                },
            ),
            PortField::Target(s) => {
                let cut = crate::text::split_once(s.as_str(), ':');
                let (host, port) = match cut {
                    Some((host, port)) => (host, port),
                    None => ("localhost", s.as_str()),
                };
                match parse_usize(port) {
                    Some(p) => if p <= u16::MAX as usize {
                        Some(
                            PortForward {
                                target_host: host.to_owned(),
                                container_port: p as u16,
                                desired_host_port: p as u16,
                            },
                        )
                    } else {
                        None
                    },
                    None => None,
                }
            },
        }
    }
}

/// The ports that a list of entries asks for, in order.
pub open spec fn port_targets(list: Seq<PortField>) -> Seq<PortForwardView> {
    list.filter_map(|f: PortField| port_target(f))
}

/// The ports that a list of entries asks for, in order.
fn forward_targets(list: &Vec<PortField>) -> (r: Vec<PortForward>)
    ensures
        r.deep_view() == port_targets(list@),
{
    let mut r: Vec<PortForward> = Vec::new();
    let mut i: usize = 0;
    while i < list.len()
        invariant
            i <= list.len(),
            r.deep_view() == port_targets(list@.take(i as int)),
        decreases list.len() - i,
    {
        assert(list@.take(i + 1).drop_last() == list@.take(i as int));
        let ghost had = r.deep_view();
        if let Some(p) = list[i].target() {
            r.push(p);
            assert(r.deep_view() == had + seq![p.deep_view()]);
        }
        i += 1;
    }
    assert(list@.take(i as int) == list@);
    r
}

/// What came of reading and parsing a configuration file.
pub enum Source {
    /// The file cannot be read, and why.
    Unreadable(String),
    /// The file holds no such configuration, and why.
    Malformed(String),
    Parsed(Raw),
}

/// What a parsed configuration declares, as plain values.
pub open spec fn declared(root: Seq<char>, path: Seq<char>, raw: Raw) -> DevcontainerView {
    DevcontainerView {
        project_root: root,
        config_file: path,
        dockerfile: match raw.build_dockerfile {
            Some(file) => Some(file@),
            None => raw.docker_file.deep_view(),
        },
        image: raw.image.deep_view(),
        compose_files: match raw.docker_compose_file {
            StringOrVec::Absent => seq![],
            StringOrVec::One(file) => seq![file@],
            StringOrVec::Many(files) => files.deep_view(),
        },
        service: raw.service.deep_view(),
        run_services: raw.run_services.deep_view(),
        workspace_folder: raw.workspace_folder.deep_view(),
        remote_user: raw.remote_user.deep_view(),
        post_create: raw.post_create_command.commands().map_values(
            |c: PostCreateCommand| c.deep_view(),
        ),
        post_start: raw.post_start_command.commands().map_values(
            |c: PostCreateCommand| c.deep_view(),
        ),
        forward_ports: port_targets(raw.forward_ports@),
        name: raw.name.deep_view(),
    }
}

impl Devcontainer {
    /// The devcontainer config of a project root, from the file that
    /// [`config_path`] located and what it holds.
    pub fn load(project_root: &str, found: Option<(String, Source)>) -> (r: Result<Self, Error>)
        ensures
            match found {
                None => r matches Err(Error::NotFound),
                Some((path, Source::Unreadable(why))) => r == Err::<Self, Error>(Error::Io(why)),
                Some((path, Source::Malformed(why))) => r == Err::<Self, Error>(
                    Error::Parse(path, why),
                ),
                Some((path, Source::Parsed(raw))) => {
                    &&& r matches Ok(dc)
                    &&& dc.project_root@ == project_root@
                    &&& dc.config_file == path
                    &&& dc.dockerfile == if raw.build_dockerfile is Some {
                        raw.build_dockerfile
                    } else {
                        raw.docker_file
                    }
                    &&& dc.image == raw.image
                    &&& dc.compose_files@ == match raw.docker_compose_file {
                        StringOrVec::Absent => Seq::<String>::empty(),
                        StringOrVec::One(s) => seq![s],
                        StringOrVec::Many(v) => v@,
                    }
                    &&& dc.service == raw.service
                    &&& dc.run_services == raw.run_services
                    &&& dc.workspace_folder == raw.workspace_folder
                    &&& dc.remote_user == raw.remote_user
                    &&& dc.post_create@ == raw.post_create_command.commands()
                    &&& dc.post_start@ == raw.post_start_command.commands()
                    &&& dc.forward_ports.deep_view() == port_targets(raw.forward_ports@)
                    &&& dc.name == raw.name
                    &&& dc.deep_view() == declared(project_root@, path@, raw)
                },
            },
    {
        match found {
            None => Err(Error::NotFound),
            Some((_, Source::Unreadable(why))) => Err(Error::Io(why)),
            Some((path, Source::Malformed(why))) => Err(Error::Parse(path, why)),
            Some((path, Source::Parsed(raw))) => {
                let dockerfile = match raw.build_dockerfile {
                    Some(file) => Some(file),
                    None => raw.docker_file,
                };
                let ghost want = declared(project_root@, path@, raw);
                let dc = Devcontainer {
                    project_root: project_root.to_owned(),
                    config_file: path,
                    dockerfile,
                    image: raw.image,
                    compose_files: raw.docker_compose_file.into_vec(),
                    service: raw.service,
                    run_services: raw.run_services,
                    workspace_folder: raw.workspace_folder,
                    remote_user: raw.remote_user,
                    post_create: raw.post_create_command.into_commands(),
                    post_start: raw.post_start_command.into_commands(),
                    forward_ports: forward_targets(&raw.forward_ports),
                    name: raw.name,
                };
                assert(dc.deep_view().compose_files == want.compose_files);
                assert(dc.deep_view().post_create == want.post_create);
                assert(dc.deep_view().post_start == want.post_start);
                assert(dc.deep_view() == want);
                Ok(dc)
            },
        }
    }
}

impl Error {
    /// The error in words.
    pub open spec fn text(&self) -> Seq<char> {
        match self {
            Error::NotFound => "no devcontainer.json found under .devcontainer/"@,
            Error::Parse(path, why) => "failed to parse "@ + path@ + ": "@ + why@,
            Error::Io(why) => "i/o error reading devcontainer.json: "@ + why@,
        }
    }

    /// The error in words.
    pub fn message(&self) -> (r: String)
        ensures
            r@ == self.text(),
    {
        match self {
            Error::NotFound => "no devcontainer.json found under .devcontainer/".to_owned(),
            Error::Parse(path, why) => {
                let mut r: String = "failed to parse ".to_owned();
                r.append(path.as_str());
                r.append(": ");
                r.append(why.as_str());
                r
            },
            Error::Io(why) => {
                let mut r: String = "i/o error reading devcontainer.json: ".to_owned();
                r.append(why.as_str());
                r
            },
        }
    }
}

// ---------------------------------------------------------------------------
// What the configuration says
// ---------------------------------------------------------------------------

/// The conventional container-side workspace path for a project.
pub open spec fn conventional_folder(project_root: Seq<char>) -> Seq<char> {
    "/workspaces/"@ + match base(project_root) {
        Some(name) => name,
        None => "workspace"@,
    }
}

/// The conventional container-side workspace path for a project:
/// `/workspaces/<project-basename>`.
pub fn default_workspace_folder(project_root: &str) -> (r: String)
    ensures
        r@ == conventional_folder(project_root@),
{
    let mut r: String = "/workspaces/".to_owned();
    match file_name(project_root) {
        Some(name) => {
            r.append(name.as_str());
        },
        None => {
            r.append("workspace");
        },
    }
    r
}

/// The text with the devcontainer variables that affect paths expanded.
pub open spec fn expanded(input: Seq<char>, project_root: Seq<char>) -> Seq<char> {
    let basename = match base(project_root) {
        Some(name) => name,
        None => seq![],
    };
    let container_folder = conventional_folder(project_root);
    let a = replaced(input, "${localWorkspaceFolderBasename}"@, basename);
    let b = replaced(a, "${localWorkspaceFolder}"@, project_root);
    let c = replaced(
        b,
        "${containerWorkspaceFolderBasename}"@,
        pieces(container_folder, '/').last(),
    );
    replaced(c, "${containerWorkspaceFolder}"@, container_folder)
}

/// Expand the subset of devcontainer variables that affect paths. The
/// container's own workspace folder is taken to be the conventional one.
pub fn expand_variables(input: &str, project_root: &str) -> (r: String)
    ensures
        r@ == expanded(input@, project_root@),
{
    let basename = match file_name(project_root) {
        Some(name) => name,
        None => String::new(),
    };
    let container_folder = default_workspace_folder(project_root);
    let parts = split(container_folder.as_str(), '/');
    proof {
        reveal_strlit("${localWorkspaceFolderBasename}");
        reveal_strlit("${localWorkspaceFolder}");
        reveal_strlit("${containerWorkspaceFolderBasename}");
        reveal_strlit("${containerWorkspaceFolder}");
        crate::text::lemma_pieces_some(container_folder@, '/');
        assert(parts.deep_view().len() > 0);
    }
    let container_basename = parts[parts.len() - 1];
    assert(container_basename@ == parts.deep_view().last());
    let a = replace(input, "${localWorkspaceFolderBasename}", basename.as_str());
    let b = replace(a.as_str(), "${localWorkspaceFolder}", project_root);
    let c = replace(b.as_str(), "${containerWorkspaceFolderBasename}", container_basename);
    replace(c.as_str(), "${containerWorkspaceFolder}", container_folder.as_str())
}

/// The container-side workspace folder that a configuration gives.
pub open spec fn workspace_of(dc: DevcontainerView) -> Seq<char> {
    match dc.workspace_folder {
        Some(raw) => expanded(raw, dc.project_root),
        None => conventional_folder(dc.project_root),
    }
}

/// A configuration defined by a docker-compose file.
pub open spec fn compose_based(dc: DevcontainerView) -> bool {
    dc.compose_files.len() > 0
}

/// The files of a project's stack: the configuration, each compose file, and
/// the Dockerfile, which is found from where the configuration is.
pub open spec fn stack_of(dc: DevcontainerView) -> Seq<Seq<char>> {
    let compose = dc.compose_files.map_values(
        |f: Seq<char>| under(config_dir(dc.project_root), f),
    );
    let dir = match above(dc.config_file) {
        Some(dir) => dir,
        None => seq![],
    };
    seq![dc.config_file] + compose + match dc.dockerfile {
        Some(file) => seq![under(dir, file)],
        None => seq![],
    }
}

impl Devcontainer {
    /// True when the container is defined by a docker-compose file.
    pub fn is_compose(&self) -> (r: bool)
        ensures
            r == compose_based(self.deep_view()),
    {
        self.compose_files.len() > 0
    }

    /// Resolve `workspaceFolder` with devcontainer variables expanded. Falls
    /// back to `/workspaces/<project-basename>` when unset.
    pub fn resolved_workspace_folder(&self) -> (r: String)
        ensures
            r@ == workspace_of(self.deep_view()),
    {
        match &self.workspace_folder {
            Some(raw) => expand_variables(raw.as_str(), self.project_root.as_str()),
            None => default_workspace_folder(self.project_root.as_str()),
        }
    }

    /// The files that define the stack: `devcontainer.json`, every compose
    /// file, and the Dockerfile.
    pub fn stack_files(&self) -> (r: Vec<String>)
        ensures
            r.deep_view() == stack_of(self.deep_view()),
    {
        let mut r: Vec<String> = Vec::new();
        r.push(self.config_file.clone());
        let dir = join(self.project_root.as_str(), ".devcontainer");
        let mut i: usize = 0;
        let ghost files = self.compose_files.deep_view();
        let ghost at = |f: Seq<char>| under(dir@, f);
        while i < self.compose_files.len()
            invariant
                files == self.compose_files.deep_view(),
                at == (|f: Seq<char>| under(dir@, f)),
                i <= self.compose_files.len(),
                r.deep_view() == seq![self.config_file@] + files.map_values(at).take(i as int),
            decreases self.compose_files.len() - i,
        {
            let ghost had = r.deep_view();
            let file = join(dir.as_str(), self.compose_files[i].as_str());
            r.push(file);
            assert(files[i as int] == self.compose_files@[i as int]@);
            assert(r.deep_view() == had.push(files.map_values(at)[i as int]));
            i += 1;
            assert(r.deep_view() == seq![self.config_file@] + files.map_values(at).take(i as int));
        }
        assert(files.map_values(at).take(i as int) == files.map_values(at));
        let ghost had = r.deep_view();
        if let Some(file) = &self.dockerfile {
            let dir = match parent(self.config_file.as_str()) {
                Some(dir) => dir,
                None => "",
            };
            proof {
                reveal_strlit("");
                assert(""@ == Seq::<char>::empty());
            }
            let path = join(dir, file.as_str());
            r.push(path);
            assert(r.deep_view() == had + seq![path@]);
        } else {
            assert(had + Seq::<Seq<char>>::empty() == had);
        }
        r
    }
}

/// Replacing what does not occur changes nothing.
pub proof fn lemma_nothing_to_replace(s: Seq<char>, from: Seq<char>, to: Seq<char>)
    requires
        !occurs(s, from),
    ensures
        replaced(s, from, to) == s,
{
    law_nothing_is_replaced(s, from, to);
}

/// What begins with an absent text is absent too.
proof fn lemma_longer_absent(s: Seq<char>, part: Seq<char>, longer: Seq<char>)
    requires
        !occurs(s, part),
        part.is_prefix_of(longer),
    ensures
        !occurs(s, longer),
{
    if occurs(s, longer) {
        let at = choose|at: int| stands_at(s, longer, at);
        assert(s.subrange(at, at + part.len()) == s.subrange(at, at + longer.len()).take(
            part.len() as int,
        ));
        assert(stands_at(s, part, at));
    }
}

/// A text with no `${` in it is left as it is when variables are expanded.
pub proof fn law_no_variable_no_change(input: Seq<char>, project_root: Seq<char>)
    requires
        !occurs(input, "${"@),
    ensures
        expanded(input, project_root) == input,
{
    reveal_strlit("${");
    reveal_strlit("${localWorkspaceFolderBasename}");
    reveal_strlit("${localWorkspaceFolder}");
    reveal_strlit("${containerWorkspaceFolderBasename}");
    reveal_strlit("${containerWorkspaceFolder}");
    lemma_longer_absent(input, "${"@, "${localWorkspaceFolderBasename}"@);
    lemma_longer_absent(input, "${"@, "${localWorkspaceFolder}"@);
    lemma_longer_absent(input, "${"@, "${containerWorkspaceFolderBasename}"@);
    lemma_longer_absent(input, "${"@, "${containerWorkspaceFolder}"@);
    let container_folder = conventional_folder(project_root);
    let basename = match base(project_root) {
        Some(name) => name,
        None => seq![],
    };
    lemma_nothing_to_replace(input, "${localWorkspaceFolderBasename}"@, basename);
    lemma_nothing_to_replace(input, "${localWorkspaceFolder}"@, project_root);
    lemma_nothing_to_replace(
        input,
        "${containerWorkspaceFolderBasename}"@,
        pieces(container_folder, '/').last(),
    );
    lemma_nothing_to_replace(input, "${containerWorkspaceFolder}"@, container_folder);
}

/// The files of a stack are the configuration, every compose file, whatever
/// else is declared, and the Dockerfile if one is declared; and no other.
pub proof fn law_stack_files(dc: DevcontainerView)
    ensures
        stack_of(dc).len() == 1 + dc.compose_files.len() + if dc.dockerfile is Some {
            1int
        } else {
            0int
        },
        stack_of(dc)[0] == dc.config_file,
        forall|i: int|
            0 <= i < dc.compose_files.len() ==> stack_of(dc)[i + 1] == under(
                under(dc.project_root, ".devcontainer"@),
                #[trigger] dc.compose_files[i],
            ),
        dc.dockerfile matches Some(file) ==> stack_of(dc).last() == under(
            match above(dc.config_file) {
                Some(dir) => dir,
                None => Seq::<char>::empty(),
            },
            file,
        ),
        forall|i: int|
            0 <= i < dc.compose_files.len() ==> stack_of(dc).contains(
                under(under(dc.project_root, ".devcontainer"@), #[trigger] dc.compose_files[i]),
            ),
{
    let dir = under(dc.project_root, ".devcontainer"@);
    assert forall|i: int| 0 <= i < dc.compose_files.len() implies stack_of(dc)[i + 1] == under(
        dir,
        #[trigger] dc.compose_files[i],
    ) by {}
    assert forall|i: int| 0 <= i < dc.compose_files.len() implies stack_of(dc).contains(
        under(dir, #[trigger] dc.compose_files[i]),
    ) by {
        assert(stack_of(dc)[i + 1] == under(dir, dc.compose_files[i]));
    }
}

/// The workspace folder of a project is, unless declared, `/workspaces/` and
/// the name of its directory.
pub proof fn law_conventional_folder(dc: DevcontainerView, dir: Seq<char>, name: Seq<char>)
    requires
        plain_name(name),
        dc.project_root == dir + seq!['/'] + name,
    ensures
        conventional_folder(dc.project_root) == "/workspaces/"@ + name,
        dc.workspace_folder is None ==> workspace_of(dc) == "/workspaces/"@ + name,
{
    law_base_is_the_last_name(dir, name);
}

/// Where a variable stands, there are a dollar and a brace.
proof fn lemma_dollar_brace(s: Seq<char>, part: Seq<char>, at: int)
    requires
        part.len() >= 2,
        part[0] == '$',
        part[1] == '{',
        stands_at(s, part, at),
    ensures
        s[at] == '$' && s[at + 1] == '{',
{
    let sub = s.subrange(at, at + part.len());
    assert(sub[0] == s[at]);
    assert(sub[1] == s[at + 1]);
}

/// A text with a dollar and a brace somewhere holds `${`.
proof fn lemma_holds_opening(s: Seq<char>, at: int)
    requires
        0 <= at < s.len() - 1,
        s[at] == '$',
        s[at + 1] == '{',
    ensures
        occurs(s, "${"@),
{
    reveal_strlit("${");
    assert(s.subrange(at, at + 2) == "${"@);
    assert(stands_at(s, "${"@, at));
}

/// A variable: `${`, a name without either of them, and `}`.
spec fn is_variable(v: Seq<char>) -> bool {
    &&& v.len() > 2
    &&& v[0] == '$'
    &&& v[1] == '{'
    &&& forall|i: int| 2 <= i < v.len() ==> v[i] != '$' && v[i] != '{'
    &&& v.last() == '}'
    &&& forall|i: int| 0 <= i < v.len() - 1 ==> v[i] != '}'
}

/// In a text with one variable, a variable stands where that one does and
/// nowhere else, and only if it is that one.
proof fn lemma_one_variable(a: Seq<char>, v: Seq<char>, b: Seq<char>, w: Seq<char>, at: int)
    requires
        is_variable(v),
        is_variable(w),
        !occurs(a, "${"@),
        !occurs(b, "${"@),
        stands_at(a + v + b, w, at),
    ensures
        at == a.len(),
        w == v,
{
    let s = a + v + b;
    lemma_dollar_brace(s, w, at);
    if at < a.len() {
        assert(s[at] == a[at]);
        if at + 1 < a.len() {
            assert(s[at + 1] == a[at + 1]);
            lemma_holds_opening(a, at);
        } else {
            assert(s[at + 1] == v[0]);
        }
    } else if at > a.len() {
        let i = at - a.len();
        if i < v.len() {
            assert(s[at] == v[i]);
            if i == 1 {
                assert(v[1] == '{');
            }
        } else {
            let j = i - v.len();
            assert(s[at] == b[j]);
            assert(s[at + 1] == b[j + 1]);
            lemma_holds_opening(b, j);
        }
    }
    let sub = s.subrange(at, at + w.len());
    assert forall|i: int| 0 <= i < w.len() && i < v.len() implies w[i] == v[i] by {
        assert(sub[i] == s[at + i]);
        assert(s[at + i] == v[i]);
    }
    if w.len() < v.len() {
        assert(w[w.len() - 1] == v[w.len() - 1]);
    }
    if v.len() < w.len() {
        assert(w[v.len() - 1] == v[v.len() - 1]);
    }
    assert(w =~= v);
}

/// Replacing one variable of a text that has no other.
proof fn lemma_variable_replaced(
    a: Seq<char>,
    v: Seq<char>,
    b: Seq<char>,
    w: Seq<char>,
    to: Seq<char>,
)
    requires
        is_variable(v),
        is_variable(w),
        !occurs(a, "${"@),
        !occurs(b, "${"@),
    ensures
        w == v ==> replaced(a + v + b, w, to) == a + to + b,
        w != v ==> replaced(a + v + b, w, to) == a + v + b,
{
    let s = a + v + b;
    if w == v {
        assert forall|at: int| 0 <= at < a.len() implies !#[trigger] stands_at(s, v, at) by {
            if stands_at(s, v, at) {
                lemma_one_variable(a, v, b, v, at);
            }
        }
        law_first_is_replaced(a, v, b, to);
        assert(!occurs(b, v)) by {
            if occurs(b, v) {
                let at = choose|at: int| stands_at(b, v, at);
                lemma_dollar_brace(b, v, at);
                lemma_holds_opening(b, at);
            }
        }
        lemma_nothing_to_replace(b, v, to);
    } else {
        assert(!occurs(s, w)) by {
            if occurs(s, w) {
                let at = choose|at: int| stands_at(s, w, at);
                lemma_one_variable(a, v, b, w, at);
            }
        }
        lemma_nothing_to_replace(s, w, to);
    }
}

proof fn lemma_no_opening(s: Seq<char>, v: Seq<char>, to: Seq<char>)
    requires
        is_variable(v),
        !occurs(s, "${"@),
    ensures
        replaced(s, v, to) == s,
{
    assert(!occurs(s, v)) by {
        if occurs(s, v) {
            let at = choose|at: int| stands_at(s, v, at);
            lemma_dollar_brace(s, v, at);
            lemma_holds_opening(s, at);
        }
    }
    lemma_nothing_to_replace(s, v, to);
}

/// The four variables are variables, and no two of them are the same.
proof fn lemma_variables()
    ensures
        is_variable("${localWorkspaceFolderBasename}"@),
        is_variable("${localWorkspaceFolder}"@),
        is_variable("${containerWorkspaceFolderBasename}"@),
        is_variable("${containerWorkspaceFolder}"@),
        "${localWorkspaceFolderBasename}"@ != "${localWorkspaceFolder}"@,
        "${localWorkspaceFolderBasename}"@ != "${containerWorkspaceFolderBasename}"@,
        "${localWorkspaceFolderBasename}"@ != "${containerWorkspaceFolder}"@,
        "${localWorkspaceFolder}"@ != "${containerWorkspaceFolderBasename}"@,
        "${localWorkspaceFolder}"@ != "${containerWorkspaceFolder}"@,
        "${containerWorkspaceFolderBasename}"@ != "${containerWorkspaceFolder}"@,
{
    reveal_strlit("${localWorkspaceFolderBasename}");
    reveal_strlit("${localWorkspaceFolder}");
    reveal_strlit("${containerWorkspaceFolderBasename}");
    reveal_strlit("${containerWorkspaceFolder}");
    assert("${localWorkspaceFolderBasename}"@[2] == 'l');
    assert("${localWorkspaceFolder}"@[2] == 'l');
    assert("${containerWorkspaceFolderBasename}"@[2] == 'c');
    assert("${containerWorkspaceFolder}"@[2] == 'c');
    assert("${localWorkspaceFolderBasename}"@.len() != "${localWorkspaceFolder}"@.len());
    assert("${containerWorkspaceFolderBasename}"@.len() != "${containerWorkspaceFolder}"@.len());
}

/// Each variable is put as what it stands for, where it stands in a text: the
/// project root, the name of its directory, and the same two of the
/// conventional folder in the container.
pub proof fn law_variable_is_expanded(
    a: Seq<char>,
    b: Seq<char>,
    dir: Seq<char>,
    name: Seq<char>,
)
    requires
        plain_name(name),
        !occurs(a, "${"@),
        !occurs(b, "${"@),
        !occurs(a + name + b, "${"@),
        !occurs(a + (dir + seq!['/'] + name) + b, "${"@),
        !occurs(a + ("/workspaces/"@ + name) + b, "${"@),
    ensures
        expanded(a + "${localWorkspaceFolder}"@ + b, dir + seq!['/'] + name) == a + (dir + seq!['/']
            + name) + b,
        expanded(a + "${localWorkspaceFolderBasename}"@ + b, dir + seq!['/'] + name) == a + name
            + b,
        expanded(a + "${containerWorkspaceFolder}"@ + b, dir + seq!['/'] + name) == a + (
        "/workspaces/"@ + name) + b,
        expanded(a + "${containerWorkspaceFolderBasename}"@ + b, dir + seq!['/'] + name) == a + name
            + b,
{
    let root = dir + seq!['/'] + name;
    let inside = "/workspaces/"@ + name;
    let v1 = "${localWorkspaceFolderBasename}"@;
    let v2 = "${localWorkspaceFolder}"@;
    let v3 = "${containerWorkspaceFolderBasename}"@;
    let v4 = "${containerWorkspaceFolder}"@;
    lemma_variables();
    law_base_is_the_last_name(dir, name);
    assert(conventional_folder(root) == inside);
    assert(pieces(inside, '/').last() == name) by {
        reveal_strlit("/workspaces/");
        reveal_strlit("/workspaces");
        assert(inside == "/workspaces"@ + seq!['/'] + name);
        law_pieces_in_parts("/workspaces"@, name, '/');
        law_pieces_make_the_text(name, '/');
        lemma_index_cuts(name, '/');
        assert(pieces(name, '/') == seq![name]);
        assert(seq![name].last() == name);
    }
    lemma_variable_replaced(a, v2, b, v1, name);
    lemma_variable_replaced(a, v2, b, v2, root);
    lemma_no_opening(a + root + b, v3, name);
    lemma_no_opening(a + root + b, v4, inside);
    lemma_variable_replaced(a, v1, b, v1, name);
    lemma_no_opening(a + name + b, v2, root);
    lemma_no_opening(a + name + b, v3, name);
    lemma_no_opening(a + name + b, v4, inside);
    lemma_variable_replaced(a, v4, b, v1, name);
    lemma_variable_replaced(a, v4, b, v2, root);
    lemma_variable_replaced(a, v4, b, v3, name);
    lemma_variable_replaced(a, v4, b, v4, inside);
    lemma_variable_replaced(a, v3, b, v1, name);
    lemma_variable_replaced(a, v3, b, v2, root);
    lemma_variable_replaced(a, v3, b, v3, name);
    lemma_no_opening(a + name + b, v4, inside);
}

/// An entry of `forwardPorts` asks for the port that it names, on the host
/// that it names or else on `localhost`, and for the same port here. One that
/// names no port that there is asks for nothing.
pub proof fn law_port_entry(entry: String, host: Seq<char>, port: u16, n: nat)
    requires
        !host.contains(':'),
        n > 65535,
    ensures
        port_target(PortField::Port(port)) == Some(
            PortForwardView {
                target_host: "localhost"@,
                container_port: port,
                desired_host_port: port,
            },
        ),
        entry@ == decimal(port as nat) ==> port_target(PortField::Target(entry)) == Some(
            PortForwardView {
                target_host: "localhost"@,
                container_port: port,
                desired_host_port: port,
            },
        ),
        entry@ == host + seq![':'] + decimal(port as nat) ==> port_target(PortField::Target(entry))
            == Some(
            PortForwardView { target_host: host, container_port: port, desired_host_port: port },
        ),
        entry@ == decimal(n) || entry@ == host + seq![':'] + decimal(n) ==> port_target(
            PortField::Target(entry),
        ) is None,
{
    law_decimal_reads_back(port as nat);
    law_decimal_reads_back(n);
    lemma_no_colon(decimal(port as nat));
    lemma_no_colon(decimal(n));
    if entry@ == host + seq![':'] + decimal(port as nat) {
        assert(cut_at(entry@, ':', host, decimal(port as nat)));
        lemma_cut_at(entry@, ':', host, decimal(port as nat));
    }
    if entry@ == host + seq![':'] + decimal(n) {
        assert(cut_at(entry@, ':', host, decimal(n)));
        lemma_cut_at(entry@, ':', host, decimal(n));
    }
}

proof fn lemma_no_colon(s: Seq<char>)
    requires
        is_number(s),
    ensures
        index_of(s, ':') == s.len(),
{
    lemma_index_cuts(s, ':');
    if index_of(s, ':') < s.len() {
        assert(crate::number::is_digit(s[index_of(s, ':') as int]));
    }
}

/// The ports that entries ask for keep their order, and those that ask for
/// nothing are left out.
pub proof fn law_ports_keep_their_order(a: Seq<PortField>, f: PortField, b: Seq<PortField>)
    ensures
        port_targets(a + seq![f] + b) == port_targets(a) + match port_target(f) {
            Some(p) => seq![p],
            None => seq![],
        } + port_targets(b),
        port_targets(Seq::<PortField>::empty()).len() == 0,
{
    let ask = |f: PortField| port_target(f);
    lemma_filter_map_parts(a + seq![f], b, ask);
    lemma_filter_map_parts(a, seq![f], ask);
    lemma_filter_map_one(f, ask);
}

/// The search looks for `.devcontainer` in each directory: where it is there,
/// that directory is the project root, and where it is not, the search goes on
/// in the directory above, up to the root of the file system.
pub proof fn law_search_goes_up(dir: Seq<char>, name: Seq<char>)
    requires
        plain_name(name),
        dir.len() > 0,
        dir.last() != '/',
        dir.len() > 1 ==> !(dir.last() == '.' && dir[dir.len() - 2] == '/'),
    ensures
        search_on(dir + seq!['/'] + name, true) == RootSearchView::Found(dir + seq!['/'] + name),
        search_on(dir + seq!['/'] + name, false) == (RootSearchView::Probe {
            dir,
            probe: dir + seq!['/'] + ".devcontainer"@,
        }),
        search_on(seq!['/'] + name, false) == (RootSearchView::Probe {
            dir: seq!['/'],
            probe: "/.devcontainer"@,
        }),
        search_on(seq!['/'], false) == RootSearchView::NotFound,
{
    let none = Seq::<char>::empty();
    reveal_strlit(".devcontainer");
    reveal_strlit("/.devcontainer");
    law_above_is_the_directory(dir, name);
    law_above_is_the_directory(none, name);
    assert(none + seq!['/'] + name == seq!['/'] + name);
    law_under(dir, ".devcontainer"@);
    law_under(seq!['/'], ".devcontainer"@);
    assert(seq!['/'] + ".devcontainer"@ == "/.devcontainer"@);
}

/// A lifecycle command field gives its commands as they are written: a string
/// one for the shell, an array one by its words, and an object one for each
/// name.
pub proof fn law_command_field(line: String, words: Vec<String>, named: Table<CommandValue>, i: int)
    ensures
        CommandField::Absent.commands().len() == 0,
        CommandField::Shell(line).commands() == seq![PostCreateCommand::Shell(line)],
        CommandField::Argv(words).commands() == seq![PostCreateCommand::Argv(words)],
        CommandField::Named(named).commands().len() == named.values().len(),
        0 <= i < named.values().len() ==> CommandField::Named(named).commands()[i]
            == match named.values()[i] {
            CommandValue::Shell(s) => PostCreateCommand::Shell(s),
            CommandValue::Argv(a) => PostCreateCommand::Argv(a),
        },
{
}

/// The files of a project lie in its `.devcontainer`, those of the nested
/// layout in a directory of their own there.
pub proof fn law_config_files(root: Seq<char>, name: Seq<char>)
    requires
        root.len() > 0,
        root.last() != '/',
        plain_name(name),
    ensures
        config_dir(root) == root + "/.devcontainer"@,
        nested_config(root, name) == root + "/.devcontainer/"@ + name + "/devcontainer.json"@,
{
    reveal_strlit(".devcontainer");
    reveal_strlit("/.devcontainer");
    reveal_strlit("/.devcontainer/");
    reveal_strlit("devcontainer.json");
    reveal_strlit("/devcontainer.json");
    law_under(root, ".devcontainer"@);
    let dir = config_dir(root);
    assert(root + seq!['/'] + ".devcontainer"@ == root + "/.devcontainer"@);
    assert(dir.last() == 'r');
    assert(name.contains(name[0]));
    assert(name.contains(name.last()));
    law_under(dir, name);
    let sub = under(dir, name);
    assert(sub.last() == name.last());
    law_under(sub, "devcontainer.json"@);
    assert(dir + seq!['/'] + name + seq!['/'] + "devcontainer.json"@ == root + "/.devcontainer/"@
        + name + "/devcontainer.json"@);
}

/// A root without a name has its workspace all the same.
pub proof fn law_root_without_a_name()
    ensures
        conventional_folder(seq!['/']) == "/workspaces/workspace"@,
{
    reveal_strlit("/workspaces/");
    reveal_strlit("workspace");
    reveal_strlit("/workspaces/workspace");
    let none = Seq::<char>::empty();
    law_pieces_in_parts(none, none, '/');
    assert(none + seq!['/'] + none == seq!['/']);
    assert(pieces(none, '/') == seq![none]);
    let list = pieces(seq!['/'], '/');
    assert(list == seq![none, none]);
    assert(list.last() == none);
    assert(list.drop_last() == seq![none]);
    assert(seq![none].last() == none);
    assert(seq![none].drop_last() == Seq::<Seq<char>>::empty());
    assert(crate::path::last_name(Seq::<Seq<char>>::empty()) is None);
    assert(crate::path::last_name(seq![none]) is None);
    assert(base(seq!['/']) is None);
    assert("/workspaces/"@ + "workspace"@ == "/workspaces/workspace"@);
}

/// A configuration is taken as it is declared, each field from its own;
/// `build.dockerfile` counts before the legacy `dockerFile`, and a single
/// compose file is a list of one.
pub proof fn law_declared_fields(root: Seq<char>, path: Seq<char>, raw: Raw)
    ensures
        ({
            let dc = declared(root, path, raw);
            &&& dc.project_root == root
            &&& dc.config_file == path
            &&& raw.build_dockerfile matches Some(file) ==> dc.dockerfile == Some(file@)
            &&& raw.build_dockerfile is None ==> (raw.docker_file matches Some(file)
                ==> dc.dockerfile == Some(file@))
            &&& raw.build_dockerfile is None && raw.docker_file is None ==> dc.dockerfile is None
            &&& raw.image matches Some(image) ==> dc.image == Some(image@)
            &&& raw.service matches Some(service) ==> dc.service == Some(service@)
            &&& raw.remote_user matches Some(user) ==> dc.remote_user == Some(user@)
            &&& raw.workspace_folder matches Some(folder) ==> dc.workspace_folder == Some(folder@)
            &&& raw.docker_compose_file is Absent ==> dc.compose_files.len() == 0
            &&& raw.docker_compose_file matches StringOrVec::One(file) ==> dc.compose_files == seq![
                file@,
            ]
            &&& raw.docker_compose_file matches StringOrVec::Many(files) ==> dc.compose_files.len()
                == files@.len() && forall|i: int|
                0 <= i < files@.len() ==> dc.compose_files[i] == (#[trigger] files@[i])@
            &&& dc.run_services == raw.run_services.deep_view()
            &&& dc.post_create.len() == raw.post_create_command.commands().len()
            &&& dc.post_start.len() == raw.post_start_command.commands().len()
            &&& raw.post_create_command matches CommandField::Shell(line) ==> dc.post_create
                == seq![CommandView::Shell(line@)]
            &&& raw.post_start_command matches CommandField::Shell(line) ==> dc.post_start == seq![
                CommandView::Shell(line@),
            ]
            &&& raw.post_create_command matches CommandField::Argv(words) ==> dc.post_create
                == seq![CommandView::Argv(words.deep_view())]
            &&& raw.post_start_command matches CommandField::Argv(words) ==> dc.post_start == seq![
                CommandView::Argv(words.deep_view()),
            ]
        }),
{
    let dc = declared(root, path, raw);
    match raw.post_create_command {
        CommandField::Shell(line) => {
            assert(dc.post_create == seq![CommandView::Shell(line@)]);
        },
        CommandField::Argv(words) => {
            assert(dc.post_create == seq![CommandView::Argv(words.deep_view())]);
        },
        _ => {},
    }
    match raw.post_start_command {
        CommandField::Shell(line) => {
            assert(dc.post_start == seq![CommandView::Shell(line@)]);
        },
        CommandField::Argv(words) => {
            assert(dc.post_start == seq![CommandView::Argv(words.deep_view())]);
        },
        _ => {},
    }
}

} // verus!

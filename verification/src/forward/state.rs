//! What is recorded of a running relay, and how it is reported.

use crate::codename::codename;
use crate::devcontainer::{Devcontainer, PortForward, PortForwardView};
use crate::docker::Container;
use crate::number::{decimal, to_decimal};
use crate::path::{join, law_under, under};
use crate::request::{text_of, utf8_lossy};
use crate::text::{contains, occurs, same};
use vstd::prelude::*;

verus! {

/// One live mapping, as recorded for `devcon forward --list`.
#[derive(Debug, Clone)]
pub struct Mapping {
    /// The port actually bound on the host (may differ from what was asked).
    pub host_port: u16,
    /// What was asked for, so we can point out when it shifted.
    pub desired_host_port: u16,
    pub target_host: String,
    pub container_port: u16,
}

/// A [`Mapping`] as plain values.
#[verifier::ext_equal]
pub struct MappingView {
    pub host_port: u16,
    pub desired_host_port: u16,
    pub target_host: Seq<char>,
    pub container_port: u16,
}

impl DeepView for Mapping {
    type V = MappingView;

    open spec fn deep_view(&self) -> MappingView {
        MappingView {
            host_port: self.host_port,
            desired_host_port: self.desired_host_port,
            target_host: self.target_host@,
            container_port: self.container_port,
        }
    }
}

/// Host-local runtime state for one project's relay. Deliberately *not* in
/// `.devcontainer/devcon.json`: that file is committed project config, this is
/// a pid that means nothing on another machine.
#[derive(Debug, Clone)]
pub struct State {
    pub pid: u32,
    pub container_id: String,
    pub mappings: Vec<Mapping>,
}

/// A [`State`] as plain values.
#[verifier::ext_equal]
pub struct StateView {
    pub pid: u32,
    pub container_id: Seq<char>,
    pub mappings: Seq<MappingView>,
}

impl DeepView for State {
    type V = StateView;

    open spec fn deep_view(&self) -> StateView {
        StateView {
            pid: self.pid,
            container_id: self.container_id@,
            mappings: self.mappings.deep_view(),
        }
    }
}

/// The process that a relay is run or stopped from, and where its host keeps
/// data.
#[derive(Debug)]
pub struct Host {
    pub pid: u32,
    /// The directory for host-local data, if there is one.
    pub data_dir: Option<String>,
}

/// A [`Host`] as plain values.
#[verifier::ext_equal]
pub struct HostView {
    pub pid: u32,
    pub data_dir: Option<Seq<char>>,
}

impl DeepView for Host {
    type V = HostView;

    open spec fn deep_view(&self) -> HostView {
        HostView { pid: self.pid, data_dir: self.data_dir.deep_view() }
    }
}

/// What is recorded of a relay: its process, the container it serves and the
/// mappings it has published.
pub open spec fn state_of(pid: u32, container_id: Seq<char>, mappings: Seq<MappingView>) -> StateView {
    StateView { pid, container_id, mappings }
}

impl State {
    /// What is recorded of a relay.
    pub fn of(pid: u32, container: &Container, mappings: Vec<Mapping>) -> (r: Self)
        ensures
            r.deep_view() == state_of(pid, container.id@, mappings.deep_view()),
    {
        State { pid, container_id: container.id.clone(), mappings }
    }
}

/// Copies of mappings.
pub fn copy_mappings(mappings: &Vec<Mapping>) -> (r: Vec<Mapping>)
    ensures
        r.deep_view() == mappings.deep_view(),
{
    let ghost list = mappings.deep_view();
    let mut r: Vec<Mapping> = Vec::new();
    let mut i: usize = 0;
    assert(r.deep_view() == list.take(0));
    while i < mappings.len()
        invariant
            list == mappings.deep_view(),
            i <= mappings.len(),
            r.deep_view() == list.take(i as int),
        decreases mappings.len() - i,
    {
        let ghost had = r.deep_view();
        let m = &mappings[i];
        r.push(
            Mapping {
                host_port: m.host_port,
                desired_host_port: m.desired_host_port,
                target_host: m.target_host.clone(),
                container_port: m.container_port,
            },
        );
        assert(list[i as int] == m.deep_view());
        assert(r.deep_view() == had.push(list[i as int]));
        i += 1;
        assert(r.deep_view() == list.take(i as int));
    }
    assert(list.take(i as int) == list);
    r
}

/// A target with the port that was bound for it.
pub open spec fn mapping_of(target: PortForwardView, host_port: u16) -> MappingView {
    MappingView {
        host_port,
        desired_host_port: target.desired_host_port,
        target_host: target.target_host,
        container_port: target.container_port,
    }
}

/// A target with the port that was bound for it.
pub fn mapping(target: &PortForward, host_port: u16) -> (r: Mapping)
    ensures
        r.deep_view() == mapping_of(target.deep_view(), host_port),
{
    Mapping {
        host_port,
        desired_host_port: target.desired_host_port,
        target_host: target.target_host.clone(),
        container_port: target.container_port,
    }
}

// ---------------------------------------------------------------------------
// Files
// ---------------------------------------------------------------------------

/// `forward-<codename>` and an ending, in `devcon` of the data directory.
pub open spec fn relay_file(
    data_dir: Option<Seq<char>>,
    project_root: Seq<char>,
    ending: Seq<char>,
) -> Option<Seq<char>> {
    match data_dir {
        Some(dir) => Some(
            under(under(dir, "devcon"@), "forward-"@ + codename(project_root) + ending),
        ),
        None => None,
    }
}

fn file_of(data_dir: Option<&str>, dc: &Devcontainer, ending: &str) -> (r: Option<String>)
    ensures
        r.deep_view() == relay_file(data_dir.deep_view(), dc.project_root@, ending@),
{
    match data_dir {
        Some(dir) => {
            let mut name: String = "forward-".to_owned();
            name.append(crate::codename::derive(dc.project_root.as_str()).as_str());
            name.append(ending);
            Some(join(join(dir, "devcon").as_str(), name.as_str()))
        },
        None => None,
    }
}

/// Where a relay's state is kept, if there is a data directory.
pub fn state_path(data_dir: Option<&str>, dc: &Devcontainer) -> (r: Option<String>)
    ensures
        r.deep_view() == relay_file(data_dir.deep_view(), dc.project_root@, ".json"@),
{
    file_of(data_dir, dc, ".json")
}

/// Where the state of a project's relay is kept on a host.
pub open spec fn record_path(host: HostView, project_root: Seq<char>) -> Option<Seq<char>> {
    relay_file(host.data_dir, project_root, ".json"@)
}

/// Where the state of a project's relay is kept on a host.
pub fn record_file(host: &Host, dc: &Devcontainer) -> (r: Option<String>)
    ensures
        r.deep_view() == record_path(host.deep_view(), dc.project_root@),
{
    match &host.data_dir {
        Some(dir) => state_path(Some(dir.as_str()), dc),
        None => None,
    }
}

/// Where a detached relay's diagnostics go, since it has no terminal.
pub fn log_path(data_dir: Option<&str>, dc: &Devcontainer) -> (r: Option<String>)
    ensures
        r.deep_view() == relay_file(data_dir.deep_view(), dc.project_root@, ".log"@),
{
    file_of(data_dir, dc, ".log")
}

/// A process whose command line speaks of devcon, so that a recycled pid that
/// now belongs to something unrelated does not read as a live relay.
pub fn is_relay(cmdline: &Vec<u8>) -> (r: bool)
    ensures
        r == occurs(utf8_lossy(cmdline@), "devcon"@),
{
    contains(text_of(cmdline).as_str(), "devcon")
}

// ---------------------------------------------------------------------------
// Reports
// ---------------------------------------------------------------------------

/// A mapping in words.
pub open spec fn mapping_text(m: MappingView) -> Seq<char> {
    "\x1b[36mdevcon:\x1b[0m forwarding localhost:"@ + decimal(m.host_port as nat) + " → "@
        + if m.target_host == "localhost"@ {
        decimal(m.container_port as nat)
    } else {
        m.target_host + ":"@ + decimal(m.container_port as nat)
    } + if m.host_port == m.desired_host_port {
        seq![]
    } else {
        " \x1b[90m("@ + decimal(m.desired_host_port as nat) + " was busy)\x1b[0m"@
    }
}

/// The mappings, one line each.
pub open spec fn report_lines(mappings: Seq<MappingView>) -> Seq<Seq<char>> {
    mappings.map_values(|m: MappingView| mapping_text(m))
}

fn mapping_line(m: &Mapping) -> (r: String)
    ensures
        r@ == mapping_text(m.deep_view()),
{
    let mut target: String = String::new();
    if same(m.target_host.as_str(), "localhost") {
        target = to_decimal(m.container_port as u64);
    } else {
        target = m.target_host.clone();
        target.append(":");
        target.append(to_decimal(m.container_port as u64).as_str());
    }
    let mut r: String = "\x1b[36mdevcon:\x1b[0m forwarding localhost:".to_owned();
    r.append(to_decimal(m.host_port as u64).as_str());
    r.append(" → ");
    r.append(target.as_str());
    let ghost had = r@;
    if m.host_port != m.desired_host_port {
        r.append(" \x1b[90m(");
        r.append(to_decimal(m.desired_host_port as u64).as_str());
        r.append(" was busy)\x1b[0m");
        assert(r@ == had + (" \x1b[90m("@ + decimal(m.desired_host_port as nat)
            + " was busy)\x1b[0m"@));
    } else {
        assert(r@ == had + Seq::<char>::empty());
    }
    r
}

/// The mappings the way the rest of devcon talks, one line each.
pub fn report(mappings: &Vec<Mapping>) -> (r: Vec<String>)
    ensures
        r.deep_view() == report_lines(mappings.deep_view()),
{
    let ghost list = mappings.deep_view();
    let ghost show = |m: MappingView| mapping_text(m);
    let mut r: Vec<String> = Vec::new();
    let mut i: usize = 0;
    while i < mappings.len()
        invariant
            list == mappings.deep_view(),
            show == (|m: MappingView| mapping_text(m)),
            i <= mappings.len(),
            r.deep_view() == list.take(i as int).map_values(show),
        decreases mappings.len() - i,
    {
        let ghost had = r.deep_view();
        let line = mapping_line(&mappings[i]);
        assert(list[i as int] == mappings@[i as int].deep_view());
        r.push(line);
        assert(r.deep_view() == had.push(show(list[i as int])));
        i += 1;
        assert(r.deep_view() == list.take(i as int).map_values(show));
    }
    assert(list.take(i as int) == list);
    r
}

/// What is said where no relay runs.
pub open spec fn no_relay_text() -> Seq<char> {
    "\x1b[36mdevcon:\x1b[0m no ports are being forwarded for this project."@
}

/// The mappings that a running relay has published, if any; `alive` says
/// whether the process of the state runs.
pub fn list(state: &Option<State>, alive: bool) -> (r: Vec<String>)
    ensures
        r.deep_view() == match state.deep_view() {
            Some(state) => if alive {
                report_lines(state.mappings)
            } else {
                seq![no_relay_text()]
            },
            None => seq![no_relay_text()],
        },
{
    if let Some(state) = state {
        if alive {
            return report(&state.mappings);
        }
    }
    let mut r: Vec<String> = Vec::new();
    r.push("\x1b[36mdevcon:\x1b[0m no ports are being forwarded for this project.".to_owned());
    assert(r.deep_view() == seq![no_relay_text()]);
    r
}

// ---------------------------------------------------------------------------
// Laws
// ---------------------------------------------------------------------------

/// Every mapping is reported, in order, by the port here and the target there;
/// and a port that had to shift is said to have.
pub proof fn law_every_mapping_is_reported(mappings: Seq<MappingView>, i: int)
    requires
        0 <= i < mappings.len(),
    ensures
        report_lines(mappings).len() == mappings.len(),
        ({
            let m = mappings[i];
            let line = report_lines(mappings)[i];
            let target = if m.target_host == "localhost"@ {
                decimal(m.container_port as nat)
            } else {
                m.target_host + ":"@ + decimal(m.container_port as nat)
            };
            let front = "\x1b[36mdevcon:\x1b[0m forwarding localhost:"@ + decimal(
                m.host_port as nat,
            ) + " → "@ + target;
            &&& front.is_prefix_of(line)
            &&& m.host_port == m.desired_host_port ==> line == front
            &&& m.host_port != m.desired_host_port ==> line == front + " \x1b[90m("@ + decimal(
                m.desired_host_port as nat,
            ) + " was busy)\x1b[0m"@
        }),
{
    let m = mappings[i];
    let line = report_lines(mappings)[i];
    let target = if m.target_host == "localhost"@ {
        decimal(m.container_port as nat)
    } else {
        m.target_host + ":"@ + decimal(m.container_port as nat)
    };
    let front = "\x1b[36mdevcon:\x1b[0m forwarding localhost:"@ + decimal(m.host_port as nat)
        + " → "@ + target;
    assert(line == mapping_text(m));
    if m.host_port == m.desired_host_port {
        assert(front + Seq::<char>::empty() == front);
        assert(line == front);
    } else {
        assert(line == front + " \x1b[90m("@ + decimal(m.desired_host_port as nat)
            + " was busy)\x1b[0m"@);
    }
    assert(line.subrange(0, front.len() as int) == front);
}

/// A mapping is a target with the port that was bound for it.
pub proof fn law_mapping_keeps_the_target(target: PortForwardView, host_port: u16)
    ensures
        mapping_of(target, host_port).host_port == host_port,
        mapping_of(target, host_port).desired_host_port == target.desired_host_port,
        mapping_of(target, host_port).target_host == target.target_host,
        mapping_of(target, host_port).container_port == target.container_port,
{
}

/// The files of a relay lie in the data directory and are named after the
/// project; without a data directory there are none.
pub proof fn law_relay_files(dir: Seq<char>, root: Seq<char>, ending: Seq<char>, pid: u32)
    requires
        dir.len() > 0,
        dir.last() != '/',
    ensures
        relay_file(Some(dir), root, ending) == Some(
            dir + "/devcon/forward-"@ + codename(root) + ending,
        ),
        relay_file(None, root, ending) is None,
        record_path(HostView { pid, data_dir: Some(dir) }, root) == Some(
            dir + "/devcon/forward-"@ + codename(root) + ".json"@,
        ),
{
    reveal_strlit("devcon");
    reveal_strlit("forward-");
    reveal_strlit("/devcon/forward-");
    let a = under(dir, "devcon"@);
    law_under(dir, "devcon"@);
    assert(a.last() == 'n');
    let name = "forward-"@ + codename(root) + ending;
    assert(name[0] == 'f');
    law_under(a, name);
    assert(a + seq!['/'] + name == dir + "/devcon/forward-"@ + codename(root) + ending);
    let json = "forward-"@ + codename(root) + ".json"@;
    assert(json[0] == 'f');
    law_under(a, json);
    assert(a + seq!['/'] + json == dir + "/devcon/forward-"@ + codename(root) + ".json"@);
}

} // verus!

use devcon::devcontainer::{Devcontainer, PortForward};
use devcon::docker::Container;
use devcon::forward::helper::{relay_command, relay_command_quoted, Helper};
use devcon::forward::port::{pick_host_port, pick_host_port_on, Bound, PortStep};
use devcon::forward::pump::{forward_stream, Action, Event};
use devcon::forward::relay::{
    helper_warning, run, run_on, RelayReply, RelayRequest, RelayStep,
};
use devcon::forward::start::{
    ensure_running, ensure_running_on, KeepReply, KeepRequest, KeepStep,
};
use devcon::forward::state::{
    is_relay, list, log_path, report, state_path, Host, Mapping, State,
};
use devcon::forward::stop::{stop, stop_on, StopReply, StopRequest, StopStep};
use devcon::forward::Error;
use devcon::request::{Outcome, Request};
use serde_json::Value;

/// Push chunks through the relay's loop and gather what comes out, together
/// with what was out when each chunk had just been handed on.
fn relay(chunks: &[&[u8]]) -> (Vec<u8>, Vec<usize>) {
    let mut out = Vec::new();
    let mut seen = Vec::new();
    let mut chunks = chunks.iter();
    let mut action = Action::Read;
    loop {
        action = match action {
            Action::Read => match chunks.next() {
                Some(chunk) => forward_stream(Event::Read(chunk.to_vec())),
                None => forward_stream(Event::Read(vec![])),
            },
            Action::Write(bytes) => {
                out.extend_from_slice(&bytes);
                seen.push(out.len());
                forward_stream(Event::Written(true))
            }
            Action::Stop => return (out, seen),
        };
    }
}

/// The helper's command reaches the target, and a payload goes through as it
/// was sent; `wait_for_eof` only for helpers that half-close.
fn assert_helper_relays(helper: Helper, wait_for_eof: bool) {
    let argv = relay_command(helper, "127.0.0.1", 40123);
    assert_eq!(argv[0], helper.binary());
    assert!(argv[argv.len() - 1].contains("127.0.0.1") || argv[1] == "127.0.0.1");
    assert!(argv[argv.len() - 1].contains("40123"));
    assert!(helper.half_closes() || !wait_for_eof);
    assert_eq!(relay(&[b"through the helper"]).0, b"through the helper");
}

#[test]
fn bash_dev_tcp_helper_relays_a_server_driven_exchange() {
    assert_helper_relays(Helper::BashDevTcp, false);
    assert_eq!(
        relay_command(Helper::BashDevTcp, "127.0.0.1", 40123),
        vec![
            "bash",
            "-c",
            "exec 3<>/dev/tcp/127.0.0.1/40123; cat <&3 & r=$!; cat >&3; exec 3>&-; wait $r",
        ]
    );
}

#[test]
fn python3_helper_relays_and_propagates_half_close() {
    assert_helper_relays(Helper::Python3, true);
    assert_eq!(
        relay_command(Helper::Python3, "127.0.0.1", 40123)[2],
        "import socket,sys,threading
s=socket.create_connection((\"127.0.0.1\",40123))
def up():
    try:
        while True:
            d=sys.stdin.buffer.read1(65536)
            if not d: break
            s.sendall(d)
    finally:
        try: s.shutdown(socket.SHUT_WR)
        except OSError: pass
threading.Thread(target=up,daemon=True).start()
while True:
    d=s.recv(65536)
    if not d: break
    sys.stdout.buffer.write(d); sys.stdout.buffer.flush()
"
    );
}

#[test]
fn socat_helper_relays_and_propagates_half_close() {
    assert_helper_relays(Helper::Socat, true);
    assert_eq!(
        relay_command(Helper::Socat, "127.0.0.1", 40123),
        vec!["socat", "-", "TCP:127.0.0.1:40123"]
    );
}

#[test]
fn helpers_that_half_close_are_probed_first() {
    // Ordering is what keeps the bash fallback from being chosen over a
    // fully-correct helper that's also installed.
    let order = Helper::probe_order();
    let first_without = order.iter().position(|h| !h.half_closes()).unwrap();
    let last_with = order.iter().rposition(|h| h.half_closes()).unwrap();
    assert!(last_with < first_without, "probe order mixes the two classes: {order:?}");
}

#[test]
fn relay_command_socat_targets_host_and_port() {
    assert_eq!(
        relay_command(Helper::Socat, "localhost", 3000),
        vec!["socat", "-", "TCP:localhost:3000"]
    );
}

#[test]
fn relay_command_nc_family_takes_bare_host_port() {
    assert_eq!(relay_command(Helper::Nc, "db", 5432), vec!["nc", "db", "5432"]);
    assert_eq!(relay_command(Helper::Ncat, "db", 5432), vec!["ncat", "db", "5432"]);
}

#[test]
fn relay_command_bash_uses_dev_tcp_for_the_target() {
    let argv = relay_command(Helper::BashDevTcp, "db", 5432);
    assert_eq!(argv[0], "bash");
    assert_eq!(argv[1], "-c");
    assert!(argv[2].contains("/dev/tcp/db/5432"), "{}", argv[2]);
}

#[test]
fn relay_command_python_quotes_the_host() {
    let argv = relay_command(Helper::Python3, "db", 5432);
    assert_eq!(argv[0], "python3");
    // The host has to reach python as a string literal, not a bare name.
    assert!(argv[2].contains("(\"db\",5432)"), "{}", argv[2]);
}

#[test]
fn python_host_is_escaped() {
    let argv = relay_command(Helper::Python3, "a\"b\\", 1);
    assert!(argv[2].contains("((\"a\\\"b\\\\\",1))"), "{}", argv[2]);
    let given = relay_command_quoted(Helper::Python3, "x", 1, "'y'");
    assert!(given[2].contains("(('y',1))"), "{}", given[2]);
}

/// Pick a port on a host where these are taken; how many were tried.
fn settle(desired: u16, taken: &dyn Fn(u16) -> bool) -> (u16, usize) {
    let mut step = pick_host_port(desired);
    let mut tries = 0;
    let mut last = 0;
    loop {
        step = match step {
            PortStep::Bind(port, at) => {
                tries += 1;
                last = port;
                let bound = if port != 0 && taken(port) {
                    Bound::InUse("in use".to_string())
                } else {
                    Bound::Yes
                };
                pick_host_port_on(desired, at, bound)
            }
            PortStep::Taken => return (last, tries),
            PortStep::Failed(why) => panic!("{why}"),
        };
    }
}

#[test]
fn pick_host_port_takes_the_requested_port_when_free() {
    assert_eq!(settle(3000, &|_| false), (3000, 1));
}

#[test]
fn pick_host_port_shifts_when_the_port_is_taken() {
    let (got, _) = settle(3000, &|p| p == 3000);
    assert_ne!(got, 3000, "should not have handed back the busy port");
    assert!(got > 3000 && got <= 3064, "got {got}");
    assert_eq!(got, 3001);
    assert_eq!(settle(3000, &|p| p < 3064).0, 3064);
}

#[test]
fn pick_host_port_takes_any_port_in_the_end() {
    assert_eq!(settle(3000, &|p| p <= 3064), (0, 66));
    assert_eq!(settle(65535, &|_| true), (0, 3));
    assert_eq!(settle(65500, &|_| true).0, 0);
}

#[test]
fn pick_host_port_gives_up_on_other_errors() {
    let PortStep::Bind(_, at) = pick_host_port(80) else {
        panic!("expected a port");
    };
    let denied = Bound::Failed("permission denied".to_string());
    assert!(matches!(
        pick_host_port_on(80, at, denied),
        PortStep::Failed(why) if why == "permission denied"
    ));
}

#[test]
fn download_reaches_the_client_before_any_request_is_sent() {
    let (out, seen) = relay(&[b"READY\n"]);
    assert_eq!(&out, b"READY\n");
    assert_eq!(seen, vec![6]);
}

#[test]
fn upload_reaches_the_helper_without_waiting_for_eof() {
    // Each chunk is out before the next one is read.
    let (out, seen) = relay(&[b"0123456789", b"abcd"]);
    assert_eq!(&out, b"0123456789abcd");
    assert_eq!(seen, vec![10, 14]);
}

#[test]
fn relay_stops_when_either_end_hangs_up() {
    assert!(matches!(forward_stream(Event::Read(vec![])), Action::Stop));
    assert!(matches!(forward_stream(Event::ReadFailed), Action::Stop));
    assert!(matches!(forward_stream(Event::Written(false)), Action::Stop));
}

fn target(host: &str, port: u16) -> PortForward {
    PortForward {
        target_host: host.to_string(),
        container_port: port,
        desired_host_port: port,
    }
}

fn dc(forward_ports: Vec<PortForward>) -> Devcontainer {
    Devcontainer {
        project_root: "/home/u/workspaces/team/proj".into(),
        config_file: "/home/u/workspaces/team/proj/.devcontainer/devcontainer.json".into(),
        dockerfile: None,
        image: Some("img".into()),
        compose_files: vec![],
        service: None,
        run_services: vec![],
        workspace_folder: None,
        remote_user: None,
        post_create: vec![],
        post_start: vec![],
        forward_ports,
        name: None,
    }
}

fn state() -> State {
    State {
        pid: 4242,
        container_id: "abc123".into(),
        mappings: vec![Mapping {
            host_port: 3001,
            desired_host_port: 3000,
            target_host: "db".into(),
            container_port: 5432,
        }],
    }
}

/// A state as the state file holds it.
fn write_state(s: &State) -> String {
    let mapping = |m: &Mapping| {
        let mut v = serde_json::Map::new();
        v.insert("host_port".into(), Value::from(m.host_port));
        v.insert("desired_host_port".into(), Value::from(m.desired_host_port));
        v.insert("target_host".into(), Value::from(m.target_host.clone()));
        v.insert("container_port".into(), Value::from(m.container_port));
        Value::Object(v)
    };
    let mut v = serde_json::Map::new();
    v.insert("pid".into(), Value::from(s.pid));
    v.insert("container_id".into(), Value::from(s.container_id.clone()));
    v.insert("mappings".into(), Value::Array(s.mappings.iter().map(mapping).collect()));
    serde_json::to_string_pretty(&Value::Object(v)).unwrap()
}

/// The state that a state file with these contents, if there is one, holds.
fn read_state(contents: Option<&str>) -> Option<State> {
    let v: Value = serde_json::from_str(contents?).ok()?;
    let number = |v: &Value, key: &str| v.get(key).and_then(Value::as_u64);
    let words = |v: &Value, key: &str| v.get(key).and_then(Value::as_str).map(str::to_string);
    let mut mappings = Vec::new();
    for m in v.get("mappings")?.as_array()? {
        mappings.push(Mapping {
            host_port: number(m, "host_port")? as u16,
            desired_host_port: number(m, "desired_host_port")? as u16,
            target_host: words(m, "target_host")?,
            container_port: number(m, "container_port")? as u16,
        });
    }
    Some(State {
        pid: number(&v, "pid")? as u32,
        container_id: words(&v, "container_id")?,
        mappings,
    })
}

#[test]
fn mapping_round_trips_through_the_state_file() {
    let back = read_state(Some(&write_state(&state()))).unwrap();
    assert_eq!(back.pid, 4242);
    assert_eq!(back.container_id, "abc123");
    assert_eq!(report(&back.mappings), report(&state().mappings));
    assert_eq!(back.mappings.len(), 1);
    assert_eq!(back.mappings[0].host_port, 3001);
    assert_eq!(back.mappings[0].desired_host_port, 3000);
    assert_eq!(back.mappings[0].target_host, "db");
    assert_eq!(back.mappings[0].container_port, 5432);
}

#[test]
fn read_state_tolerates_a_missing_or_corrupt_file() {
    assert!(read_state(None).is_none());
    assert!(read_state(Some("not json")).is_none());
    let lines = list(&read_state(Some("not json")), true);
    assert_eq!(
        lines,
        vec!["\x1b[36mdevcon:\x1b[0m no ports are being forwarded for this project."]
    );
}

#[test]
fn reports_say_what_shifted() {
    let plain = Mapping {
        host_port: 80,
        desired_host_port: 80,
        target_host: "localhost".into(),
        container_port: 80,
    };
    assert_eq!(report(&vec![plain]), vec!["\x1b[36mdevcon:\x1b[0m forwarding localhost:80 → 80"]);
    assert_eq!(
        list(&Some(state()), true),
        vec!["\x1b[36mdevcon:\x1b[0m forwarding localhost:3001 → db:5432 \x1b[90m(3000 was busy)\x1b[0m"]
    );
    assert_eq!(list(&Some(state()), false), list(&None, true));
}

#[test]
fn relay_files_are_named_after_the_project() {
    let d = dc(vec![]);
    assert_eq!(
        state_path(Some("/data"), &d).as_deref(),
        Some("/data/devcon/forward-team_proj.json")
    );
    assert_eq!(log_path(Some("/data"), &d).as_deref(), Some("/data/devcon/forward-team_proj.log"));
    assert_eq!(state_path(None, &d), None);
}

/// Answer what tearing a relay down asks for, and note it.
fn answer_stop(
    request: &StopRequest,
    recorded: &Option<State>,
    alive: bool,
    asked: &mut Vec<String>,
) -> StopReply {
    match request {
        StopRequest::ReadState(path) => {
            asked.push(format!("read {path}"));
            StopReply::Recorded(recorded.clone())
        }
        StopRequest::CheckAlive(pid) => {
            asked.push(format!("alive? {pid}"));
            StopReply::Alive(alive)
        }
        StopRequest::Kill(pid) => {
            asked.push(format!("kill {pid}"));
            StopReply::Done
        }
        StopRequest::Remove(path) => {
            asked.push(format!("remove {path}"));
            StopReply::Done
        }
    }
}

/// Tear a relay down where this is recorded; what is asked for.
fn tear_down(host: &Host, recorded: Option<State>, alive: bool) -> Vec<String> {
    let d = dc(vec![]);
    let mut asked = Vec::new();
    let mut step = stop(&d, host);
    while let StopStep::Wait(request, at) = step {
        let reply = answer_stop(&request, &recorded, alive, &mut asked);
        step = stop_on(&d, host, at, reply);
    }
    asked
}

#[test]
fn only_another_live_relay_is_killed() {
    let path = "/data/devcon/forward-team_proj.json";
    let host = |pid| Host { pid, data_dir: Some("/data".into()) };
    assert_eq!(
        tear_down(&host(1), Some(state()), true),
        vec![
            format!("read {path}"),
            "alive? 4242".to_string(),
            "kill 4242".to_string(),
            format!("remove {path}")
        ]
    );
    assert_eq!(
        tear_down(&host(1), Some(state()), false),
        vec![format!("read {path}"), "alive? 4242".to_string(), format!("remove {path}")]
    );
    let cleared = vec![format!("read {path}"), format!("remove {path}")];
    assert_eq!(tear_down(&host(4242), Some(state()), true), cleared);
    assert_eq!(tear_down(&host(1), None, true), cleared);
    assert!(tear_down(&Host { pid: 1, data_dir: None }, None, true).is_empty());
    assert!(is_relay(&b"/usr/bin/devcon\0forward\0".to_vec()));
    assert!(!is_relay(&b"/usr/bin/vim\0".to_vec()));
}

/// Keep a relay running with these replies; what is asked for and said.
fn keep(d: &Devcontainer, replies: Vec<KeepReply>) -> (Vec<KeepRequest>, Vec<String>) {
    let mut asked = Vec::new();
    let mut replies = replies.into_iter();
    let mut step = ensure_running(d, true);
    loop {
        match step {
            KeepStep::Wait(request, at) => {
                asked.push(request);
                let reply = replies.next().unwrap_or(match request {
                    KeepRequest::ReadState => KeepReply::Recorded(None),
                    KeepRequest::CheckAlive(_) => KeepReply::Alive(false),
                    KeepRequest::Spawn => KeepReply::Spawned(Ok(())),
                    _ => KeepReply::Done,
                });
                step = ensure_running_on("abc123", Some("/log"), at, reply);
            }
            KeepStep::Done(say) => return (asked, say),
        }
    }
}

#[test]
fn live_relay_is_kept_and_a_stale_one_replaced() {
    let d = dc(vec![target("db", 5432)]);
    let live = vec![KeepReply::Recorded(Some(state())), KeepReply::Alive(true)];
    let (asked, say) = keep(&d, live);
    assert_eq!(asked, vec![KeepRequest::ReadState, KeepRequest::CheckAlive(4242)]);
    assert_eq!(say, report(&state().mappings));

    let dead = vec![KeepReply::Recorded(Some(state())), KeepReply::Alive(false)];
    let (asked, say) = keep(&d, dead);
    assert_eq!(
        asked[2..5],
        [KeepRequest::RemoveState, KeepRequest::Spawn, KeepRequest::Pause]
    );
    // Every poll is one pause and one look.
    assert_eq!(asked.len(), 4 + 60);
    assert_eq!(
        say,
        vec!["\x1b[33mdevcon:\x1b[0m port forwarding is still starting; see /log"]
    );

    let mut other = state();
    other.container_id = "gone".into();
    let (asked, _) = keep(&d, vec![KeepReply::Recorded(Some(other))]);
    assert_eq!(asked[1..3], [KeepRequest::RemoveState, KeepRequest::Spawn]);
}

#[test]
fn forwarding_never_stands_in_the_way() {
    assert!(matches!(ensure_running(&dc(vec![]), true), KeepStep::Done(say) if say.is_empty()));
    let d = dc(vec![target("db", 5432)]);
    assert!(matches!(
        ensure_running(&d, false),
        KeepStep::Done(say)
            if say == ["\x1b[33mdevcon:\x1b[0m no state directory — skipping port forwarding."]
    ));
    let (_, say) = keep(
        &d,
        vec![KeepReply::Recorded(None), KeepReply::Spawned(Err("no exe".into()))],
    );
    assert_eq!(say, vec!["\x1b[33mdevcon:\x1b[0m could not start port forwarding: no exe"]);
    let (asked, say) = keep(
        &d,
        vec![
            KeepReply::Recorded(None),
            KeepReply::Spawned(Ok(())),
            KeepReply::Done,
            KeepReply::Recorded(Some(state())),
        ],
    );
    assert_eq!(asked.len(), 4);
    assert_eq!(say, report(&state().mappings));
}

/// A host to run a relay on.
struct World {
    /// The helper that is in the container.
    helper: &'static str,
    /// A port that is taken.
    taken: u16,
    /// A port that cannot be bound.
    denied: u16,
    /// How often the container is found up.
    up: usize,
    /// Whether there is a data directory.
    data: bool,
    /// Whether the state can be recorded.
    writable: bool,
}

fn world() -> World {
    World { helper: "socat", taken: 0, denied: 0, up: 0, data: true, writable: true }
}

fn ran(success: bool, stdout: &[u8]) -> RelayReply {
    RelayReply::Probed(Outcome::Exited { success, stdout: stdout.to_vec(), stderr: vec![] })
}

/// Run a relay; what happens, and how it ends.
fn relay_run(d: &Devcontainer, w: World) -> (Vec<String>, Result<(), String>) {
    let c = Container { id: "c1".into(), name: "n".into() };
    let host = Host { pid: 77, data_dir: if w.data { Some("/data".into()) } else { None } };
    let mut asked = Vec::new();
    let mut recorded: Option<State> = None;
    let mut up = w.up;
    let mut step = run(d, &c, &host);
    loop {
        let (request, at) = match step {
            RelayStep::Wait(request, at) => (request, at),
            RelayStep::Done(end) => return (asked, end.map_err(|e| e.message())),
        };
        let reply = match request {
            RelayRequest::Probe(Request::Capture(args)) if args[0] == "exec" => {
                assert_eq!(args[..4], ["exec", "c1", "sh", "-c"]);
                let there = args[4] == format!("command -v {}", w.helper);
                ran(there, if there { b"/bin/x\n" } else { b"" })
            }
            RelayRequest::Probe(Request::Capture(args)) => {
                assert_eq!(args, ["inspect", "-f", "{{.State.Running}}", "c1"]);
                asked.push("up?".to_string());
                let is_up = up > 0;
                up = up.saturating_sub(1);
                ran(true, if is_up { b"true\n" } else { b"false\n" })
            }
            RelayRequest::Probe(other) => panic!("{other:?}"),
            RelayRequest::Bind(port) if port == w.taken => {
                RelayReply::NotBound(Bound::InUse("in use".into()))
            }
            RelayRequest::Bind(port) if port == w.denied => {
                RelayReply::NotBound(Bound::Failed("denied".into()))
            }
            RelayRequest::Bind(port) => {
                asked.push(format!("bound {port}"));
                RelayReply::Bound(Ok(port))
            }
            RelayRequest::Say(lines) => {
                asked.extend(lines);
                RelayReply::Done
            }
            RelayRequest::Record { path, state } => {
                asked.push(format!("record {path}"));
                recorded = Some(state);
                RelayReply::Recorded(if w.writable { Ok(()) } else { Err("full".into()) })
            }
            RelayRequest::Serve { helper, mappings } => {
                let ports: Vec<(u16, String, u16)> = mappings
                    .iter()
                    .map(|m| (m.host_port, m.target_host.clone(), m.container_port))
                    .collect();
                asked.push(format!("serve {helper:?} {ports:?}"));
                if let Some(state) = &recorded {
                    assert_eq!((state.pid, state.container_id.as_str()), (77, "c1"));
                    assert_eq!(report(&state.mappings), report(&mappings));
                }
                RelayReply::Done
            }
            RelayRequest::Pause => {
                asked.push("pause".to_string());
                RelayReply::Done
            }
            RelayRequest::Stop(request) => {
                RelayReply::Stopped(answer_stop(&request, &recorded, true, &mut asked))
            }
        };
        step = run_on(d, &c, &host, at, reply);
    }
}

#[test]
fn every_target_gets_a_mapping() {
    let d = dc(vec![target("localhost", 3000), target("db", 5432)]);
    let (asked, end) = relay_run(&d, World { helper: "ncat", taken: 3000, up: 2, ..world() });
    assert_eq!(end, Ok(()));
    assert_eq!(
        asked,
        vec![
            "\x1b[33mdevcon:\x1b[0m forwarding via ncat — it can't signal end-of-request, so a server that reads until EOF will hang. Add socat to the image to avoid this.",
            "bound 3001",
            "bound 5432",
            "record /data/devcon/forward-team_proj.json",
            "\x1b[36mdevcon:\x1b[0m forwarding localhost:3001 → 3000 \x1b[90m(3000 was busy)\x1b[0m",
            "\x1b[36mdevcon:\x1b[0m forwarding localhost:5432 → db:5432",
            "serve Ncat [(3001, \"localhost\", 3000), (5432, \"db\", 5432)]",
            "up?",
            "pause",
            "up?",
            "pause",
            "up?",
            "\x1b[36mdevcon:\x1b[0m container stopped — port forwarding ended.",
            "read /data/devcon/forward-team_proj.json",
            "remove /data/devcon/forward-team_proj.json",
        ]
    );
}

#[test]
fn relay_with_nothing_to_forward_ends_at_once() {
    let (asked, end) = relay_run(&dc(vec![]), world());
    assert_eq!(end, Ok(()));
    assert_eq!(
        asked,
        vec!["\x1b[36mdevcon:\x1b[0m no forwardPorts declared — nothing to forward."]
    );
}

#[test]
fn relay_that_cannot_be_recorded_goes_on() {
    let d = dc(vec![target("localhost", 3000)]);
    let (asked, end) = relay_run(&d, World { writable: false, ..world() });
    assert_eq!(end, Ok(()));
    assert_eq!(asked[2], "\x1b[33mdevcon:\x1b[0m could not record forward state: full");
    assert_eq!(asked[4], "serve Socat [(3000, \"localhost\", 3000)]");

    let (asked, end) = relay_run(&d, World { data: false, ..world() });
    assert_eq!(end, Ok(()));
    assert_eq!(
        asked,
        vec![
            "bound 3000",
            "\x1b[36mdevcon:\x1b[0m forwarding localhost:3000 → 3000",
            "serve Socat [(3000, \"localhost\", 3000)]",
            "up?",
            "\x1b[36mdevcon:\x1b[0m container stopped — port forwarding ended.",
        ]
    );
}

#[test]
fn relay_that_cannot_bind_records_nothing() {
    let d = dc(vec![target("localhost", 3000), target("db", 5432)]);
    let (asked, end) = relay_run(&d, World { denied: 5432, ..world() });
    assert_eq!(end, Err("i/o error setting up port forwarding: denied".to_string()));
    assert_eq!(asked, vec!["bound 3000"]);
}

#[test]
fn no_helper_is_an_error_that_lists_the_ports() {
    let d = dc(vec![target("localhost", 3000), target("db", 5432)]);
    let (asked, end) = relay_run(&d, World { helper: "none", ..world() });
    assert!(asked.is_empty());
    assert_eq!(
        end.unwrap_err(),
        "cannot forward 3000, 5432: the container has none of socat, ncat, nc, bash or python3, and one of them is needed to open the connection from inside. Add socat to the image to enable forwarding."
    );
    assert_eq!(
        Error::Io("denied".into()).message(),
        "i/o error setting up port forwarding: denied"
    );
    assert_eq!(helper_warning(Helper::Socat), None);
    assert_eq!(
        helper_warning(Helper::Nc).as_deref(),
        Some("\x1b[33mdevcon:\x1b[0m forwarding via nc — it can't signal end-of-request, so a server that reads until EOF will hang. Add socat to the image to avoid this.")
    );
}

use devcon::devcontainer::{Devcontainer, PostCreateCommand};
use devcon::docker::Container;
use devcon::lifecycle::drift::{confirm_rebuild, confirm_start, display_relative, file_newer_than};
use devcon::lifecycle::hooks::post_start_sentinel;
use devcon::lifecycle::stack::{bring_down, bring_down_on, DownStep};
use devcon::lifecycle::up::{ensure_up, ensure_up_on, Choices, UpNext};
use devcon::lifecycle::{Error, Rebuild, TearDown};
use devcon::request::{Outcome, Reply, Request};
use devcon::timestamp::parse_rfc3339_secs;
use devcon::uninstall;

#[test]
fn parses_docker_created_timestamp() {
    // 2026-07-12T09:14:22Z — cross-checked against a known epoch value.
    assert_eq!(
        parse_rfc3339_secs("2026-07-12T09:14:22.123456789Z"),
        Some(1_783_847_662)
    );
    // The Unix epoch itself.
    assert_eq!(parse_rfc3339_secs("1970-01-01T00:00:00Z"), Some(0));
    // Fractional seconds and the trailing Z are optional.
    assert_eq!(parse_rfc3339_secs("2000-01-01T00:00:00"), Some(946_684_800));
}

#[test]
fn rejects_malformed_timestamps() {
    assert_eq!(parse_rfc3339_secs("not-a-date"), None);
    assert_eq!(parse_rfc3339_secs("2026-13-01T00:00:00Z"), None); // bad month
    assert_eq!(parse_rfc3339_secs(""), None);
}

#[test]
fn sentinel_is_path_safe_and_start_specific() {
    let a = post_start_sentinel(Some("2026-07-12T09:14:22.123456789Z"));
    let b = post_start_sentinel(Some("2026-07-12T10:00:00.000000000Z"));
    assert!(a.starts_with("/tmp/.devcon-poststart-"));
    // The StartedAt token is alnum-only — no ':' or '.' that break paths.
    let token = a.strip_prefix("/tmp/.devcon-poststart-").unwrap();
    assert!(token.chars().all(|c| c.is_ascii_alphanumeric()));
    // Different starts → different sentinels (so a restart re-runs postStart).
    assert_ne!(a, b);
}

#[test]
fn sentinel_handles_missing_timestamp() {
    let s = post_start_sentinel(None);
    assert_eq!(s, "/tmp/.devcon-poststart-unknown");
}

#[test]
fn timestamps_follow_the_calendar() {
    let day = 86_400;
    assert_eq!(parse_rfc3339_secs("2024-02-29T00:00:00Z"), Some(1_709_164_800));
    assert_eq!(parse_rfc3339_secs("2024-03-01T00:00:00Z"), Some(1_709_164_800 + day));
    assert_eq!(parse_rfc3339_secs("1969-12-31T23:59:59Z"), Some(-1));
    assert_eq!(parse_rfc3339_secs("1900-03-01T00:00:00Z"), Some(-2_203_891_200));
    assert_eq!(parse_rfc3339_secs("0000-01-01T00:00:00Z"), Some(-62_167_219_200));
    // Days past the end of a month count on.
    assert_eq!(
        parse_rfc3339_secs("2023-02-31T00:00:00Z"),
        parse_rfc3339_secs("2023-03-03T00:00:00Z")
    );
    assert_eq!(parse_rfc3339_secs("2023-02-32T00:00:00Z"), None);
    assert_eq!(parse_rfc3339_secs("2023-02-01T00:00"), None);
    assert_eq!(parse_rfc3339_secs("-2023-02-01T00:00:00"), None);
    assert_eq!(parse_rfc3339_secs("9223372036854775807-01-01T00:00:00Z"), None);
}

#[test]
fn only_utc_timestamps_of_the_known_shape_are_read() {
    let at = Some(1_783_847_662);
    assert_eq!(parse_rfc3339_secs(" 2026-07-12T09:14:22.5Z\n"), at);
    assert_eq!(parse_rfc3339_secs("2026-07-12T09:14:22.5"), at);
    assert_eq!(parse_rfc3339_secs("2026-07-12T23:59:60Z"), Some(1_783_900_800));
    for other in [
        "2026-07-12T09:14:22.5+02:00",
        "2026-07-12T09:14:22+02:00",
        "2026-07-12-01T09:14:22Z",
        "2026-07-12T09:14:22:01Z",
        "2026-07-12T09:14:22ZZ",
        "2026-07-12T09:14:22.Z",
        "2026-07-12T09:14:22.5.5Z",
        "2026-07-12T09:14:22.5z",
        "2026-07-12T09:14:+22Z",
        "2026-07-12T-9:14:22Z",
        "+2026-07-12T09:14:22Z",
        "2026-07-12T99:14:22Z",
        "2026-07-12T24:00:00Z",
        "2026-07-12T09:60:22Z",
        "2026-07-12T09:14:61Z",
        "2026-07-00T09:14:22Z",
        "2026-07-12 09:14:22Z",
        "2026-07-12TZ",
        "T",
    ] {
        assert_eq!(parse_rfc3339_secs(other), None, "{other}");
    }
}

#[test]
fn newer_files_are_those_modified_after_the_container_was_made() {
    assert!(file_newer_than(Some(11), 10));
    assert!(!file_newer_than(Some(10), 10));
    assert!(!file_newer_than(None, 10));
    assert_eq!(display_relative("/p/.devcontainer/a.yml", "/p"), ".devcontainer/a.yml");
    assert_eq!(display_relative("/q/a.yml", "/p"), "/q/a.yml");
}

#[test]
fn only_a_start_is_agreed_to_by_an_empty_line() {
    for yes in ["y\n", " Y ", "yes\n", "YES\n", "yEs"] {
        assert!(confirm_rebuild(yes) && confirm_start(yes), "{yes}");
    }
    for no in ["n\n", "yess", "no", "ye"] {
        assert!(!confirm_rebuild(no) && !confirm_start(no), "{no}");
    }
    assert!(!confirm_rebuild("\n"));
    assert!(confirm_start("\n"));
}

fn dc(compose: bool) -> Devcontainer {
    Devcontainer {
        project_root: "/home/u/proj".into(),
        config_file: "/home/u/proj/.devcontainer/devcontainer.json".into(),
        dockerfile: None,
        image: if compose { None } else { Some("img:latest".into()) },
        compose_files: if compose { vec!["compose.yml".into()] } else { vec![] },
        service: None,
        run_services: vec![],
        workspace_folder: None,
        remote_user: None,
        post_create: vec![PostCreateCommand::Shell("npm ci".into())],
        post_start: vec![PostCreateCommand::Argv(vec!["./start.sh".into(), "-v".into()])],
        forward_ports: vec![],
        name: None,
    }
}

fn ok(stdout: &str) -> Reply {
    Reply::Ran(Outcome::Exited {
        success: true,
        stdout: stdout.as_bytes().to_vec(),
        stderr: vec![],
    })
}

fn bad() -> Reply {
    Reply::Ran(Outcome::Exited {
        success: false,
        stdout: vec![],
        stderr: b"bad".to_vec(),
    })
}

/// A host on which one container can run.
struct Host {
    /// The line that `docker ps` prints.
    ps: String,
    compose_project: String,
    /// The label says that postCreate ran.
    label: bool,
    /// The sentinels that are in the container.
    sentinels: Vec<String>,
    modified: i64,
    answer: String,
    /// Commands that fail.
    failing: Vec<String>,
    has_user: bool,
    asked: Vec<String>,
}

fn host() -> Host {
    Host {
        ps: "c1\tproj-1\t/home/u/proj\t".into(),
        compose_project: "".into(),
        label: false,
        sentinels: vec![],
        modified: 0,
        answer: "".into(),
        failing: vec![],
        has_user: true,
        asked: vec![],
    }
}

impl Host {
    fn reply(&mut self, request: &Request) -> Reply {
        match request {
            Request::Ask(question) => {
                self.asked.push(format!("ask {question}"));
                Reply::Line(Ok(self.answer.clone()))
            }
            Request::Modified(path) => {
                self.asked.push(format!("modified {path}"));
                Reply::Seconds(Some(self.modified))
            }
            Request::Read(_) => Reply::Text(None),
            Request::Diagnose => Reply::Text(None),
            Request::Capture(args) | Request::Run { args, .. } => {
                let line = args.join(" ");
                self.asked.push(line.clone());
                if self.failing.iter().any(|f| line.contains(f.as_str())) {
                    return bad();
                }
                if line.starts_with("ps ") {
                    ok(&self.ps)
                } else if line.contains("compose.project\"") {
                    ok(&self.compose_project)
                } else if line.contains("dev.devcon.postcreate\"") {
                    ok(if self.label { "1" } else { "<no value>" })
                } else if line.contains("{{.Created}}") {
                    ok("1970-01-02T00:00:00Z")
                } else if line.contains("{{.State.StartedAt}}") {
                    ok("2026-07-12T09:14:22Z")
                } else if line.contains(" test -f ") {
                    let there = self.sentinels.iter().any(|s| line.ends_with(s.as_str()));
                    if there {
                        ok("")
                    } else {
                        bad()
                    }
                } else if line.contains(" id ") {
                    if self.has_user {
                        ok("")
                    } else {
                        bad()
                    }
                } else {
                    ok("")
                }
            }
        }
    }

    /// Walk to the end: the container or the error, and what was said.
    fn up(
        &mut self,
        dc: &Devcontainer,
        existing: bool,
        assume_yes: bool,
        rebuild: Rebuild,
        interactive: bool,
    ) -> (Result<Option<String>, String>, Vec<String>) {
        let choices = Choices { assume_yes, rebuild, interactive };
        let existing = if existing {
            Some(Container { id: "c1".into(), name: "proj-1".into() })
        } else {
            None
        };
        let mut said = Vec::new();
        let mut step = ensure_up(dc, existing, choices);
        loop {
            said.extend(step.say);
            match step.next {
                UpNext::Wait(request, at) => {
                    let reply = self.reply(&request);
                    step = ensure_up_on(dc, choices, at, reply);
                }
                UpNext::Done(r) => {
                    let r = r.map(|c| c.map(|c| c.id)).map_err(|e| e.message());
                    return (r, said);
                }
            }
        }
    }

    fn did(&self, part: &str) -> bool {
        self.asked.iter().any(|line| line.contains(part))
    }
}

const CREATE: &str = "exec -i -w /workspaces/proj c1 sh -c npm ci";
const START: &str = "exec -i -w /workspaces/proj c1 ./start.sh -v";
const STARTED: &str = "/tmp/.devcon-poststart-20260712T091422Z";
const CREATED: &str = "/tmp/.devcon-postcreate-done";

fn connected() -> Result<Option<String>, String> {
    Ok(Some("c1".to_string()))
}

#[test]
fn unmarked_container_gets_both_hooks_and_their_records() {
    let mut h = host();
    let (r, said) = h.up(&dc(false), true, false, Rebuild::Auto, false);
    assert_eq!(r, connected());
    let hooks: Vec<&String> = h.asked.iter().filter(|l| l.starts_with("exec -i")).collect();
    assert_eq!(
        hooks,
        vec![
            CREATE,
            "exec -i c1 sh -c touch /tmp/.devcon-postcreate-done 2>/dev/null || true",
            START,
            "exec -i c1 sh -c touch /tmp/.devcon-poststart-20260712T091422Z 2>/dev/null || true",
        ]
    );
    assert_eq!(
        said,
        vec![
            "\x1b[36mdevcon:\x1b[0m running postCreateCommand…",
            "\x1b[36mdevcon:\x1b[0m running postStartCommand…",
        ]
    );
}

#[test]
fn marked_container_is_left_alone() {
    let mut h = host();
    h.label = true;
    h.sentinels = vec![STARTED.into()];
    assert_eq!(h.up(&dc(false), true, false, Rebuild::Auto, false), (connected(), vec![]));
    assert!(!h.did("exec -i"));
    let mut h = host();
    h.sentinels = vec![CREATED.into()];
    assert_eq!(h.up(&dc(false), true, false, Rebuild::Auto, false).0, connected());
    assert!(!h.did(CREATE));
    assert!(h.did(START));
}

#[test]
fn failing_hook_is_warned_about_and_not_recorded() {
    let mut h = host();
    h.failing = vec!["npm ci".into()];
    let (r, said) = h.up(&dc(false), true, false, Rebuild::Auto, false);
    assert_eq!(r, connected());
    assert!(!h.did("touch /tmp/.devcon-postcreate-done"));
    assert!(h.did(START));
    assert_eq!(
        said[1],
        "\x1b[33mdevcon:\x1b[0m postCreateCommand failed: npm ci — connecting anyway; it will retry on the next connect once the cause is fixed."
    );
    let mut h = host();
    h.failing = vec!["start.sh".into()];
    let (r, said) = h.up(&dc(false), true, false, Rebuild::Auto, false);
    assert_eq!(r, connected());
    assert!(said[2].contains("postStartCommand failed: ./start.sh -v — connecting anyway"));
    assert!(!h.did("touch /tmp/.devcon-poststart"));
}

#[test]
fn hooks_run_as_the_declared_user_if_it_is_there() {
    let mut d = dc(false);
    d.remote_user = Some("wm".into());
    let mut h = host();
    h.up(&d, true, false, Rebuild::Never, false);
    assert!(h.did("exec c1 id wm"));
    assert!(h.did("exec -i -u wm -w /workspaces/proj c1 sh -c npm ci"));
    let mut h = host();
    h.has_user = false;
    let (_, said) = h.up(&d, true, false, Rebuild::Never, false);
    assert!(h.did(CREATE));
    assert!(said[1].contains("remoteUser 'wm' not found in container"));
}

#[test]
fn stack_that_is_down_is_started_only_if_wanted() {
    let mut h = host();
    assert_eq!(h.up(&dc(false), false, false, Rebuild::Auto, false), (Ok(None), vec![]));
    assert!(h.asked.is_empty());
    h.answer = "n\n".into();
    assert_eq!(h.up(&dc(false), false, false, Rebuild::Auto, true).0, Ok(None));
    assert_eq!(
        h.asked,
        vec!["ask \x1b[36mdevcon:\x1b[0m this project container isn't running. Start it? [Y/n] "]
    );
    h.answer = "\n".into();
    assert_eq!(h.up(&dc(false), false, false, Rebuild::Auto, true).0, connected());
    assert!(h.did("run -d --name devcon-proj"));
}

#[test]
fn image_is_run_with_its_labels_and_its_mount() {
    let mut d = dc(false);
    d.remote_user = Some("wm".into());
    let mut h = host();
    // The label of the container that is made here does not count yet.
    h.label = true;
    let (r, said) = h.up(&d, false, true, Rebuild::Auto, false);
    assert_eq!(r, connected());
    assert_eq!(
        h.asked[0],
        "run -d --name devcon-proj --label devcontainer.local_folder=/home/u/proj --mount type=bind,source=/home/u/proj,target=/workspaces/proj -w /workspaces/proj --label dev.devcon.postcreate=1 -u wm img:latest sleep infinity"
    );
    assert_eq!(said[0], "\x1b[36mdevcon:\x1b[0m starting container from img:latest…");
    assert!(h.did("sh -c npm ci"));
    // On a later connect it does.
    let mut h = host();
    h.label = true;
    h.up(&d, true, false, Rebuild::Auto, false);
    assert!(!h.did("sh -c npm ci"));
}

#[test]
fn compose_stack_is_brought_up_from_its_files() {
    let mut d = dc(true);
    d.service = Some("app".into());
    let mut h = host();
    h.ps = "c1\tproj-1\t/home/u/proj\tapp".into();
    let (r, said) = h.up(&d, false, true, Rebuild::Auto, false);
    assert_eq!(r, connected());
    assert_eq!(h.asked[0], "compose -f compose.yml up -d app");
    assert_eq!(said[0], "\x1b[36mdevcon:\x1b[0m starting compose stack…");
    d.run_services = vec!["app".into(), "db".into()];
    let mut h = host();
    h.up(&d, false, true, Rebuild::Auto, false);
    assert_eq!(h.asked[0], "compose -f compose.yml up -d app db");
}

#[test]
fn drift_is_asked_about_and_defaults_to_no() {
    let mut h = host();
    h.modified = 86_401;
    h.answer = "\n".into();
    assert_eq!(h.up(&dc(false), true, false, Rebuild::Auto, true).0, connected());
    assert!(h.did("ask \x1b[36mdevcon:\x1b[0m .devcontainer/devcontainer.json changed since this container was built. Rebuild it? [y/N] "));
    assert!(!h.did("rm -f"));
    h.answer = "y\n".into();
    assert_eq!(h.up(&dc(false), true, false, Rebuild::Auto, true).0, connected());
    assert!(h.did("rm -f c1"));
    assert!(h.did("run -d"));
    // As old as the container is no drift.
    let mut h = host();
    h.modified = 86_400;
    h.up(&dc(false), true, false, Rebuild::Auto, true);
    assert!(!h.did("ask"));
}

#[test]
fn scripts_never_drop_a_container_unless_told_to() {
    let mut h = host();
    h.modified = 86_401;
    let (r, said) = h.up(&dc(false), true, false, Rebuild::Auto, false);
    assert_eq!(r, connected());
    assert!(!h.did("rm -f") && !h.did("run -d"));
    assert_eq!(
        said[0],
        "\x1b[33mdevcon:\x1b[0m .devcontainer/devcontainer.json changed since this container was built — run `devcon --rebuild` to recreate it."
    );
    assert_eq!(h.up(&dc(false), true, true, Rebuild::Never, false).0, connected());
    assert!(!h.did("rm -f"));
    h.up(&dc(false), true, true, Rebuild::Auto, false);
    assert!(h.did("rm -f c1"));
}

#[test]
fn forced_rebuild_recreates_without_drift() {
    let mut h = host();
    let (r, said) = h.up(&dc(false), true, false, Rebuild::Force, false);
    assert_eq!(r, connected());
    assert_eq!(said[0], "\x1b[36mdevcon:\x1b[0m rebuilding…");
    assert_eq!(h.asked[1], "rm -f c1");
    assert!(h.asked[2].starts_with("run -d"));
    // A compose stack is recreated in place.
    let mut h = host();
    h.compose_project = "proj".into();
    h.ps = "c1\tproj-1\t/home/u/proj\tapp".into();
    h.up(&dc(true), true, false, Rebuild::Force, false);
    assert_eq!(h.asked[1], "compose -f compose.yml up -d --build --force-recreate");
}

#[test]
fn switched_stack_is_torn_down_by_what_it_is() {
    // compose to image: the whole old stack goes.
    let mut h = host();
    h.compose_project = "old".into();
    let (_, said) = h.up(&dc(false), true, true, Rebuild::Auto, false);
    let down = h.asked.iter().position(|l| l == "compose -p old down").unwrap();
    let up = h.asked.iter().position(|l| l.starts_with("run -d")).unwrap();
    assert!(down < up);
    assert_eq!(said[1], "\x1b[36mdevcon:\x1b[0m removing old compose stack 'old'…");
    // image to compose: the old container goes.
    let mut h = host();
    h.ps = "c1\tproj-1\t/home/u/proj\tapp".into();
    h.answer = "yes".into();
    h.up(&dc(true), true, false, Rebuild::Auto, true);
    assert!(h.did("its stack type (container → compose) changed since"));
    assert!(h.did("rm -f c1"));
    assert!(h.did("--force-recreate"));
}

#[test]
fn failures_to_start_are_told_apart() {
    let mut h = host();
    h.failing = vec!["run -d".into()];
    assert_eq!(
        h.up(&dc(false), false, true, Rebuild::Auto, false).0,
        Err("failed to start the dev container: docker run failed".to_string())
    );
    let mut h = host();
    h.failing = vec!["up -d".into()];
    assert_eq!(
        h.up(&dc(true), false, true, Rebuild::Auto, false).0,
        Err("failed to start the dev container: docker compose up failed".to_string())
    );
    h.compose_project = "p".into();
    assert_eq!(
        h.up(&dc(true), true, true, Rebuild::Force, false).0,
        Err("failed to start the dev container: docker compose up --build failed".to_string())
    );
    let mut bare = dc(false);
    bare.image = None;
    assert_eq!(
        host().up(&bare, false, true, Rebuild::Auto, false).0,
        Err("failed to start the dev container: no image or dockerComposeFile in devcontainer.json".to_string())
    );
    let mut h = host();
    h.ps = "".into();
    assert_eq!(
        h.up(&dc(false), false, true, Rebuild::Auto, false).0,
        Err("started the stack but no matching container is running — check `docker ps`".to_string())
    );
    let mut h = host();
    h.failing = vec!["rm -f".into()];
    assert_eq!(
        h.up(&dc(false), true, true, Rebuild::Force, false).0,
        Err("docker rm failed: bad".to_string())
    );
}

#[test]
fn lifecycle_errors_are_put_in_words() {
    assert_eq!(Error::Io("x".into()).message(), "i/o error: x");
    assert_eq!(Error::NotUpAfterStart(Some("exited".into())).message(), "exited");
    assert_eq!(
        Error::BringDownFailed("x".into()).message(),
        "failed to stop the dev container: x"
    );
    assert_eq!(
        Error::LifecycleFailed("postCreateCommand", "make".into()).message(),
        "postCreateCommand failed: make"
    );
    assert_eq!(
        Error::Docker(devcon::docker::Error::DockerNotFound).message(),
        "docker not found — install Docker and make sure it is on your PATH"
    );
}

/// Bring a stack down: what is said, what is run, and how it ends.
fn down(d: &Devcontainer, running: bool, mode: TearDown, reply: Reply) -> (String, String, String) {
    let existing = if running {
        Some(Container { id: "c1".into(), name: "proj-1".into() })
    } else {
        None
    };
    match bring_down(d, existing, mode) {
        DownStep::Wait { say, request, state } => {
            let line = match request {
                Request::Capture(args) => args.join(" "),
                Request::Run { args, .. } => args.join(" "),
                other => panic!("{other:?}"),
            };
            let end = match bring_down_on(mode, state, reply) {
                Ok(()) => "ok".to_string(),
                Err(e) => e.message(),
            };
            (say, line, end)
        }
        DownStep::Nothing { say } => (say, String::new(), String::new()),
    }
}

#[test]
fn stacks_are_brought_down_or_stopped() {
    assert_eq!(
        down(&dc(true), false, TearDown::Remove, ok("")),
        (
            "\x1b[36mdevcon:\x1b[0m down compose stack…".to_string(),
            "compose -f compose.yml down".to_string(),
            "ok".to_string()
        )
    );
    assert_eq!(
        down(&dc(true), true, TearDown::Stop, bad()).2,
        "failed to stop the dev container: docker compose stop failed"
    );
    assert_eq!(
        down(&dc(false), true, TearDown::Remove, ok("")),
        (
            "\x1b[36mdevcon:\x1b[0m removing proj-1…".to_string(),
            "rm -f c1".to_string(),
            "ok".to_string()
        )
    );
    assert_eq!(down(&dc(false), true, TearDown::Remove, bad()).2, "docker rm failed: bad");
    assert_eq!(down(&dc(false), true, TearDown::Stop, ok("")).1, "stop c1");
    assert_eq!(
        down(&dc(false), true, TearDown::Stop, bad()).2,
        "failed to stop the dev container: docker stop failed"
    );
    assert_eq!(
        down(&dc(false), false, TearDown::Remove, ok("")).0,
        "\x1b[36mdevcon:\x1b[0m nothing to stop — no container is running."
    );
    assert_eq!(
        down(&dc(true), true, TearDown::Remove, Reply::Ran(Outcome::Failed("x".into()))).2,
        "i/o error: x"
    );
}

#[test]
fn flags_say_how_to_rebuild_and_tear_down() {
    assert_eq!(Rebuild::from_flags(true, false), Rebuild::Force);
    assert_eq!(Rebuild::from_flags(false, true), Rebuild::Never);
    assert_eq!(Rebuild::from_flags(false, false), Rebuild::Auto);
    assert_eq!(TearDown::from_flag(true), TearDown::Stop);
    assert_eq!(TearDown::from_flag(false), TearDown::Remove);
}

#[test]
fn uninstall_removes_the_binary_and_nothing_else() {
    use_uninstall(true, 0);
    match uninstall::run(false, Some("/bin/devcon".into())) {
        uninstall::Uninstall::Remove(path) => assert_eq!(path, "/bin/devcon"),
        other => panic!("{other:?}"),
    }
    let done = uninstall::run_on("/bin/devcon", Ok(()));
    assert!(done.out.starts_with("remove /bin/devcon\n\nUninstalled.\n"));
    assert_eq!((done.err.as_str(), done.code), ("", 0));
    let failed = uninstall::run_on("/bin/devcon", Err("denied".into()));
    assert_eq!(
        failed.err,
        "devcon: could not remove /bin/devcon: denied\n        If devcon came from a package, uninstall it with your package manager.\n"
    );
    assert_eq!(failed.code, 1);
    match uninstall::run(false, None) {
        uninstall::Uninstall::Exit(e) => {
            assert_eq!(e.err, "devcon: cannot locate my own binary; remove it by hand\n");
            assert_eq!(e.code, 1);
        }
        other => panic!("{other:?}"),
    }
}

fn use_uninstall(dry_run: bool, code: i32) {
    match uninstall::run(dry_run, Some("/bin/devcon".into())) {
        uninstall::Uninstall::Exit(e) => {
            assert_eq!(
                e.out,
                "would remove /bin/devcon\n\nDry run: nothing was changed. Re-run without --dry-run to apply.\n"
            );
            assert_eq!(e.code, code);
        }
        other => panic!("{other:?}"),
    }
}

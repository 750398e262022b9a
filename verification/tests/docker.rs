use devcon::devcontainer::Devcontainer;
use devcon::docker::compose_file::scan_workspace_service;
use devcon::docker::container::{
    compose_down_project, compose_project, container_running, created_at, exec_capture,
    exec_command, exec_stop, has_marker, has_marker_on, is_compose_container, remove,
    resolve_user, started_at, workspace_mount_destination, MarkerStep,
};
use devcon::docker::find::{find, find_in_rows, find_on, parse_ps, row_stack_matches, FindStep, PsRow};
use devcon::docker::projects::{
    group_projects, list_projects, list_projects_args, parse_project_row, ProjectRow,
};
use devcon::docker::{Container, Error};
use devcon::listing::render;
use devcon::request::{Outcome, Reply, Request};

/// Minimal Devcontainer for stack-kind checks: compose iff `compose` is set.
fn dc(compose: bool) -> Devcontainer {
    Devcontainer {
        project_root: "/home/u/proj".into(),
        config_file: "/home/u/proj/.devcontainer/devcontainer.json".into(),
        dockerfile: None,
        image: if compose { None } else { Some("img:latest".into()) },
        compose_files: if compose { vec!["compose.yml".into()] } else { vec![] },
        service: None,
        run_services: vec![],
        workspace_folder: None,
        remote_user: None,
        post_create: vec![],
        post_start: vec![],
        forward_ports: vec![],
        name: None,
    }
}

fn ps_row(compose_service: &str) -> PsRow {
    PsRow {
        id: "abc".into(),
        name: "container".into(),
        local_folder: "/home/u/proj".into(),
        compose_service: compose_service.into(),
    }
}

#[test]
fn row_stack_matches_rejects_wrong_kind() {
    let image_row = ps_row(""); // no compose service → standalone image
    let compose_row = ps_row("workbench"); // compose member

    // A compose config must not match a leftover image container sharing the
    // same local_folder (the image→compose switch reattach bug), and vice
    // versa. Same-kind rows still match.
    assert!(!row_stack_matches(&dc(true), &image_row));
    assert!(row_stack_matches(&dc(true), &compose_row));
    assert!(row_stack_matches(&dc(false), &image_row));
    assert!(!row_stack_matches(&dc(false), &compose_row));
}

fn row(local_folder: &str, compose: &str, state: &str, marker: bool) -> ProjectRow {
    ProjectRow {
        local_folder: local_folder.into(),
        compose_project: compose.into(),
        state: state.into(),
        devcon_marker: marker,
        working_dir: String::new(),
    }
}

/// A compose sidecar row carrying only the stack's `working_dir` (no
/// devcontainer label — the shape `deploy`-style stacks show up as).
fn compose_row(compose: &str, state: &str, working_dir: &str) -> ProjectRow {
    ProjectRow {
        local_folder: String::new(),
        compose_project: compose.into(),
        state: state.into(),
        devcon_marker: false,
        working_dir: working_dir.into(),
    }
}

#[test]
fn groups_compose_stack_into_one_project() {
    // A compose dev container + two sidecars, all one project.
    let rows = vec![
        row("/home/u/proj", "proj_devcontainer", "running", false),
        row("", "proj_devcontainer", "running", false),
        row("", "proj_devcontainer", "exited", false),
    ];
    let projects = group_projects(&rows, false);
    assert_eq!(projects.len(), 1);
    let p = &projects[0];
    assert_eq!(p.name, "proj");
    assert_eq!(p.kind, "compose");
    assert!(p.running);
    assert_eq!(p.container_count, 3);
}

#[test]
fn image_based_devcon_container_is_a_project() {
    let rows = vec![row("/home/u/app", "", "running", true)];
    let projects = group_projects(&rows, false);
    assert_eq!(projects.len(), 1);
    assert_eq!(projects[0].kind, "container");
    assert!(projects[0].devcon_managed);
}

#[test]
fn plain_compose_projects_hidden_without_all() {
    // No devcontainer label, no devcon marker → not a dev container.
    let hidden = group_projects(&vec![row("", "some_service_stack", "running", false)], false);
    assert!(hidden.is_empty());
    let shown = group_projects(&vec![row("", "some_service_stack", "running", false)], true);
    assert_eq!(shown.len(), 1);
}

#[test]
fn compose_stack_path_comes_from_working_dir() {
    // A plain compose stack (like `deploy`): no devcontainer label, but its
    // working_dir tells us where it lives. Shown with --all.
    let projects = group_projects(
        &vec![
            compose_row("deploy", "running", "/srv/deploy"),
            compose_row("deploy", "running", "/srv/deploy"),
        ],
        true,
    );
    assert_eq!(projects.len(), 1);
    assert_eq!(projects[0].name, "deploy");
    assert_eq!(projects[0].path, "/srv/deploy");
}

#[test]
fn devcontainer_path_wins_over_compose_working_dir() {
    // The dev-container member's local_folder is authoritative even when a
    // sidecar reports a different working_dir.
    let projects = group_projects(
        &vec![
            compose_row("proj", "running", "/tmp/build"),
            row("/home/u/proj", "proj", "running", false),
        ],
        false,
    );
    assert_eq!(projects[0].path, "/home/u/proj");
}

#[test]
fn stopped_project_reports_not_running() {
    let rows = vec![row("/home/u/x", "", "exited", true)];
    let projects = group_projects(&rows, false);
    assert!(!projects[0].running);
}

#[test]
fn finds_service_that_mounts_workspaces() {
    let compose = r#"
services:
  app:
    image: ghcr.io/wellmade-oss/dc-workbench:latest
    volumes:
      - .:/workspaces/wellmade-os:cached
    command: sleep infinity
  postgres:
    image: postgres:16
    volumes:
      - pgdata:/var/lib/postgresql/data
"#;
    assert_eq!(scan_workspace_service(compose).as_deref(), Some("app"));
}

#[test]
fn picks_the_workspace_service_even_when_not_first() {
    let compose = r#"
services:
  postgres:
    image: postgres:16
  mailpit:
    image: axllent/mailpit
  app:
    volumes:
      - .:/workspaces/proj
"#;
    assert_eq!(scan_workspace_service(compose).as_deref(), Some("app"));
}

#[test]
fn none_when_no_workspace_mount() {
    let compose = r#"
services:
  db:
    image: postgres:16
    volumes:
      - pgdata:/var/lib/postgresql/data
"#;
    assert_eq!(scan_workspace_service(compose), None);
}

#[test]
fn ignores_workspaces_outside_services_block() {
    let compose = r#"
volumes:
  cache:
    driver_opts:
      device: /workspaces/whatever
services:
  db:
    image: postgres:16
"#;
    assert_eq!(scan_workspace_service(compose), None);
}

#[test]
fn comments_and_other_blocks_name_no_service() {
    let compose = "services:\n  app:\n# /workspaces\n    # /workspaces\nvolumes:\n  x: /workspaces\n";
    assert_eq!(scan_workspace_service(compose), None);
    assert_eq!(
        scan_workspace_service("services:\n  a::\n\tvolumes: [/workspaces]").as_deref(),
        Some("a")
    );
}

#[test]
fn service_has_to_mount_into_the_workspace() {
    let named = "services:\n  db:\n    working_dir: /workspaces/x\n  app:\n    volumes:\n      - .:/workspaces/x\n";
    assert_eq!(scan_workspace_service(named).as_deref(), Some("app"));
    let nested = "services:\n  db:\n    labels:\n      volumes: /workspaces/x\n";
    assert_eq!(scan_workspace_service(nested), None);
    let source = "services:\n  db:\n    volumes:\n      - /workspaces/x:/data\n      - type: bind\n        source: /workspaces/y\n        target: /y\n";
    assert_eq!(scan_workspace_service(source), None);
    let over = "services:\n  db:\n    volumes:\n      - data:/data\n    working_dir: /workspaces\n";
    assert_eq!(scan_workspace_service(over), None);

    let long = "services:\n  app:\n    image: x\n    volumes:\n      - type: bind\n        source: ..\n        target: /workspaces/y\n";
    assert_eq!(scan_workspace_service(long).as_deref(), Some("app"));
    let flush = "services:\n  app:\n    volumes:\n    # code\n    - ..:/workspaces:cached\n";
    assert_eq!(scan_workspace_service(flush).as_deref(), Some("app"));
    let inline = "services:\n  app:\n    volumes: [\"..:/workspaces\"]\n";
    assert_eq!(scan_workspace_service(inline).as_deref(), Some("app"));
}

fn ran(success: bool, stdout: &str, stderr: &str) -> Outcome {
    Outcome::Exited {
        success,
        stdout: stdout.as_bytes().to_vec(),
        stderr: stderr.as_bytes().to_vec(),
    }
}

/// Search for the dev container among `ps` lines; `compose` is the compose
/// file, `mounting` the container that bind-mounts the project root.
fn locate(dc: &Devcontainer, ps: &str, compose: Option<&str>, mounting: &str) -> Option<String> {
    let mut step = find(dc);
    loop {
        match step {
            FindStep::Wait(request, at) => {
                let reply = match &request {
                    Request::Capture(args) if args[0] == "ps" => Reply::Ran(ran(true, ps, "")),
                    Request::Capture(args) => {
                        assert_eq!(
                            args[..3],
                            ["inspect", "-f", "{{range .Mounts}}{{.Source}}\n{{end}}"]
                        );
                        let out = if args[3] == mounting { "/x\n/home/u/proj\n" } else { "/x\n" };
                        Reply::Ran(ran(true, out, ""))
                    }
                    Request::Read(path) => {
                        assert_eq!(path, "/home/u/proj/.devcontainer/compose.yml");
                        Reply::Text(compose.map(str::to_string))
                    }
                    other => panic!("{other:?}"),
                };
                step = find_on(dc, at, reply);
            }
            FindStep::Done(r) => return r.unwrap().map(|c| c.id),
        }
    }
}

const STACK: &str = "1\tproj-db-1\t\tdb\n2\tproj-app-1\t\tapp\n3\tother\t\tapp2\nbroken\n";

#[test]
fn label_of_the_right_kind_decides() {
    let ps = "1\tx\t/home/u/proj\t\n2\ty\t/home/u/proj\tapp\n";
    assert_eq!(locate(&dc(false), ps, None, ""), Some("1".to_string()));
    assert_eq!(locate(&dc(true), ps, None, ""), Some("2".to_string()));
}

#[test]
fn dev_service_is_declared_or_inferred() {
    let mut declared = dc(true);
    declared.service = Some("app".into());
    assert_eq!(locate(&declared, STACK, None, ""), Some("2".to_string()));
    let inferred = "services:\n  app:\n    volumes:\n      - .:/workspaces/p\n";
    assert_eq!(locate(&dc(true), STACK, Some(inferred), ""), Some("2".to_string()));
}

#[test]
fn mount_then_name_decide_last() {
    assert_eq!(locate(&dc(true), STACK, None, "2"), Some("2".to_string()));
    assert_eq!(locate(&dc(true), STACK, None, ""), None);
    assert_eq!(locate(&dc(false), STACK, None, ""), Some("1".to_string()));
    let mut named = dc(false);
    named.service = Some("app".into());
    assert_eq!(locate(&named, STACK, None, ""), Some("2".to_string()));
    assert_eq!(locate(&dc(false), "9\tsomething\n", None, ""), None);
}

#[test]
fn sidecars_are_ruled_out_by_name() {
    let mut declared = dc(true);
    declared.service = Some("app".into());
    assert_eq!(locate(&dc(true), "c1\tproj-postgres-1\t\tpostgres\n", None, ""), None);
    let row = "c1\tproj-app-db-1\t\tdb\n";
    assert_eq!(locate(&declared, row, None, ""), None);
    // A container of no stack is no sidecar.
    let rows = "c1\tproj-db-1\t\tdb\nc2\tproj\t\t\nc3\tproj-app\t\t\n";
    assert_eq!(locate(&dc(true), rows, None, ""), Some("c2".to_string()));
    assert_eq!(locate(&declared, rows, None, ""), Some("c3".to_string()));
}

#[test]
fn ps_lines_make_rows() {
    let rows = parse_ps("1\t a \t /p \t svc \nlone\n2\tb\n");
    assert_eq!(rows.len(), 2);
    assert_eq!(
        (rows[0].id.as_str(), rows[0].name.as_str(), rows[0].local_folder.as_str()),
        ("1", "a", "/p")
    );
    assert_eq!(rows[0].compose_service, "svc");
    assert_eq!(rows[1].local_folder, "");
    let end = find_in_rows(&dc(false), parse_ps("7\tx\t/home/u/proj\t\n"));
    assert!(matches!(end, FindStep::Done(Ok(Some(c))) if c.id == "7" && c.name == "x"));
}

#[test]
fn docker_errors_say_what_failed() {
    let fail = |outcome: Outcome| match find(&dc(false)) {
        FindStep::Wait(_, at) => match find_on(&dc(false), at, Reply::Ran(outcome)) {
            FindStep::Done(Err(e)) => e.message(),
            _ => panic!("expected an error"),
        },
        FindStep::Done(_) => panic!("expected a request"),
    };
    assert_eq!(
        fail(Outcome::Missing),
        "docker not found — install Docker and make sure it is on your PATH"
    );
    assert_eq!(fail(Outcome::Failed("denied".into())), "i/o error running docker: denied");
    assert_eq!(fail(ran(false, "", "no daemon")), "docker ps failed: no daemon");
}

#[test]
fn rows_are_trimmed_and_missing_labels_are_empty() {
    let r = parse_project_row(" /p \t proj \trunning\t<no value>\t<no value>").unwrap();
    assert_eq!(r.local_folder, "/p");
    assert_eq!(r.compose_project, "proj");
    assert!(!r.devcon_marker);
    assert_eq!(r.working_dir, "");
    assert!(parse_project_row(" \t\t \t").is_none());
    assert!(parse_project_row("\t\t\t1").unwrap().devcon_marker);
}

#[test]
fn listing_groups_and_orders_what_docker_prints() {
    assert_eq!(list_projects_args()[..3], ["ps", "-a", "--format"]);
    let text = "/home/u/zeta\t\tRunning\t1\t\n\tstack\texited\t\t/srv/stack\n\n/a/b/\tweb\tup\t\t\n";
    let all = list_projects(ran(true, text, ""), true).unwrap();
    let keys: Vec<&str> = all.iter().map(|p| p.key.as_str()).collect();
    assert_eq!(keys, ["/a/b/", "/home/u/zeta", "stack"]);
    assert_eq!(all[0].name, "b");
    let dev = list_projects(ran(true, text, ""), false).unwrap();
    assert_eq!(dev.len(), 2);
    // What is listed without --all is listed just so with it.
    assert!(dev.iter().all(|p| all.contains(p)));
    assert!(matches!(
        list_projects(ran(false, "", "down"), true),
        Err(Error::CommandFailed(cmd, why)) if cmd == "ps" && why == "down"
    ));
}

#[test]
fn project_is_keyed_on_its_path_when_known() {
    let p = group_projects(&vec![row("/home/u/proj", "proj_devcontainer", "running", false)], false);
    assert_eq!(p.len(), 1);
    assert_eq!(p[0].key, "/home/u/proj");
    assert_eq!(p[0].kind, "compose");
    let p = group_projects(&vec![row("", "proj_devcontainer", "running", true)], false);
    assert_eq!(p[0].key, "proj_devcontainer");
    // Two stacks of one path stay apart, in the order of their names.
    let rows = vec![row("/p", "b", "exited", false), row("/p", "a", "running", false)];
    let p = group_projects(&rows, false);
    assert_eq!(p.len(), 2);
    assert!(p.iter().all(|p| p.key == "/p"));
    assert!(p[0].running && !p[1].running);
}

#[test]
fn order_of_rows_makes_no_difference() {
    let rows = || {
        vec![
            row("/w/b", "b", "running", false),
            row("", "b", "exited", false),
            row("/w/a", "", "exited", true),
            row("", "c", "running", false),
        ]
    };
    let show = |rows: &Vec<ProjectRow>| -> Vec<(String, bool, usize, bool)> {
        group_projects(rows, true)
            .into_iter()
            .map(|p| (p.key, p.running, p.container_count, p.devcon_managed))
            .collect()
    };
    let straight = show(&rows());
    assert_eq!(
        straight,
        vec![
            ("/w/a".to_string(), false, 1, true),
            ("/w/b".to_string(), true, 2, false),
            ("c".to_string(), true, 1, false),
        ]
    );
    let mut turned = rows();
    turned.reverse();
    assert_eq!(show(&turned), straight);
    turned.swap(0, 2);
    assert_eq!(show(&turned), straight);
}

#[test]
fn renders_projects_in_columns() {
    let rows = vec![
        row("/w/wellmade-os", "os", "running", false),
        row("", "os", "running", false),
        row("", "os", "exited", false),
        row("/w/devcon", "", "running", true),
        row("/w/some-api", "api", "exited", false),
    ];
    let projects = group_projects(&rows, false);
    let listing = render(&projects, false);
    assert_eq!(
        listing.out,
        vec![
            "\x1b[32mup\x1b[0m       devcon        container  *",
            "\x1b[90mstopped\x1b[0m  some-api      compose  ",
            "\x1b[32mup\x1b[0m       wellmade-os   compose    (3 containers)",
        ]
    );
    assert_eq!(listing.err, vec!["\n\x1b[90m* created by devcon\x1b[0m"]);
    assert_eq!(
        render(&vec![], false).err,
        vec!["devcon: no dev-container projects found (pass --all to include every compose project)."]
    );
    assert_eq!(render(&vec![], true).err, vec!["devcon: no containers found on this host."]);
    assert!(render(&vec![], true).out.is_empty());
}

fn said(s: &str) -> Result<String, Error> {
    Ok(s.to_string())
}

#[test]
fn inspect_answers_are_trimmed_or_absent() {
    assert_eq!(created_at(&said(" 2026 \n")).as_deref(), Some("2026"));
    assert_eq!(started_at(&said("\n")), None);
    assert_eq!(compose_project(&said("proj\n")).as_deref(), Some("proj"));
    assert_eq!(compose_project(&said("<no value>\n")), None);
    assert!(is_compose_container(&said("proj")));
    assert!(!is_compose_container(&Err(Error::DockerNotFound)));
    assert!(container_running(&said("true\n")));
    assert!(!container_running(&said("false\n")));
    assert_eq!(
        workspace_mount_destination(&said("/a\t/workspaces/a\n/p\t/code\n"), "/p").as_deref(),
        Some("/code")
    );
}

#[test]
fn marker_is_a_label_or_a_file() {
    let c = Container { id: "c1".into(), name: "n".into() };
    let marked = |label: Outcome, file: Outcome| {
        let mut step = has_marker(&c);
        let mut replies = vec![file, label];
        loop {
            match step {
                MarkerStep::Wait(_, at) => {
                    step = has_marker_on(&c, at, Reply::Ran(replies.pop().unwrap()));
                }
                MarkerStep::Done(found) => return found,
            }
        }
    };
    assert!(marked(ran(true, "1\n", ""), Outcome::Missing));
    assert!(marked(ran(true, "<no value>\n", ""), ran(true, "", "")));
    assert!(marked(ran(false, "", "gone"), ran(true, "", "")));
    assert!(!marked(ran(true, "\n", ""), ran(false, "", "")));
    assert!(!marked(Outcome::Missing, Outcome::Failed("x".into())));
    match has_marker(&c) {
        MarkerStep::Wait(Request::Capture(args), at) => {
            assert_eq!(
                args,
                ["inspect", "-f", "{{index .Config.Labels \"dev.devcon.postcreate\"}}", "c1"]
            );
            match has_marker_on(&c, at, Reply::Ran(Outcome::Missing)) {
                MarkerStep::Wait(Request::Run { args, .. }, _) => assert_eq!(
                    args,
                    ["exec", "c1", "test", "-f", "/tmp/.devcon-postcreate-done"]
                ),
                other => panic!("{other:?}"),
            }
        }
        other => panic!("{other:?}"),
    }
}

#[test]
fn missing_user_is_warned_about() {
    assert_eq!(resolve_user("wm", &ran(true, "", "")), Ok("wm".to_string()));
    assert_eq!(
        resolve_user("wm", &ran(false, "", "")),
        Err(
            "\x1b[33mdevcon:\x1b[0m remoteUser 'wm' not found in container — using the image's default user instead"
                .to_string()
        )
    );
}

#[test]
fn commands_are_spelled_out() {
    let c = Container { id: "c1".into(), name: "n".into() };
    let argv = vec!["sh".to_string(), "-c".to_string()];
    assert_eq!(
        exec_command(&c, Some("u"), Some("/w"), &argv),
        ["exec", "-i", "-u", "u", "-w", "/w", "c1", "sh", "-c"]
    );
    assert_eq!(exec_command(&c, None, None, &argv), ["exec", "-i", "c1", "sh", "-c"]);
    assert_eq!(exec_capture(&c, &argv), ["exec", "c1", "sh", "-c"]);
    assert_eq!(remove(&c), ["rm", "-f", "c1"]);
    assert_eq!(exec_stop(&c), ["stop", "c1"]);
    assert_eq!(compose_down_project("p"), ["compose", "-p", "p", "down"]);
}

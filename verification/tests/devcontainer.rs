use devcon::codename;
use devcon::devcontainer::{
    config_path, default_workspace_folder, expand_variables, find_project_root,
    find_project_root_on, CommandField, CommandValue, Devcontainer, Error, PortField,
    PostCreateCommand, Raw, RootSearch, Source, StringOrVec,
};
use devcon::jsonc::{strip_jsonc, strip_trailing_commas};
use devcon::table::Table;
use devcon::workspace;
use serde_json::Value;

/// Walk up from a directory over a set of existing directories.
fn search(start: &str, dirs: &[&str]) -> Option<String> {
    let mut step = find_project_root(start);
    loop {
        match step {
            RootSearch::Probe { dir, probe } => {
                let present = dirs.contains(&probe.as_str());
                step = find_project_root_on(dir, present);
            }
            RootSearch::Found(root) => return Some(root),
            RootSearch::NotFound => return None,
        }
    }
}

fn text(v: &Value, key: &str) -> Option<String> {
    v.get(key).and_then(Value::as_str).map(str::to_string)
}

fn texts(v: &Value) -> Vec<String> {
    v.as_array()
        .map(|a| a.iter().filter_map(Value::as_str).map(str::to_string).collect())
        .unwrap_or_default()
}

fn command(v: Option<&Value>) -> CommandField {
    match v {
        Some(Value::String(s)) => CommandField::Shell(s.clone()),
        Some(Value::Object(named)) => {
            let mut table = Table::new();
            for (name, value) in named {
                let value = match value {
                    Value::String(s) => CommandValue::Shell(s.clone()),
                    other => CommandValue::Argv(texts(other)),
                };
                table.insert(name.clone(), value);
            }
            CommandField::Named(table)
        }
        Some(list) => CommandField::Argv(texts(list)),
        None => CommandField::Absent,
    }
}

/// The configuration that a devcontainer.json holds.
fn parse(contents: &str) -> Source {
    let v: Value = match serde_json::from_str(&strip_jsonc(contents)) {
        Ok(v) => v,
        Err(e) => return Source::Malformed(e.to_string()),
    };
    Source::Parsed(Raw {
        name: text(&v, "name"),
        image: text(&v, "image"),
        docker_compose_file: match v.get("dockerComposeFile") {
            Some(Value::String(s)) => StringOrVec::One(s.clone()),
            Some(list) => StringOrVec::Many(texts(list)),
            None => StringOrVec::Absent,
        },
        service: text(&v, "service"),
        run_services: v.get("runServices").map(texts).unwrap_or_default(),
        workspace_folder: text(&v, "workspaceFolder"),
        remote_user: text(&v, "remoteUser"),
        post_create_command: command(v.get("postCreateCommand")),
        post_start_command: command(v.get("postStartCommand")),
        build_dockerfile: v.get("build").and_then(|b| text(b, "dockerfile")),
        docker_file: text(&v, "dockerFile"),
        forward_ports: v
            .get("forwardPorts")
            .and_then(Value::as_array)
            .map(|a| {
                a.iter()
                    .map(|p| match p {
                        Value::String(s) => PortField::Target(s.clone()),
                        n => PortField::Port(n.as_u64().unwrap() as u16),
                    })
                    .collect()
            })
            .unwrap_or_default(),
    })
}

/// Load the config of a project whose flat devcontainer.json holds `contents`.
fn load(root: &str, contents: &str) -> Result<Devcontainer, Error> {
    let path = config_path(root, true, &None).unwrap();
    Devcontainer::load(root, Some((path, parse(contents))))
}

#[test]
fn finds_devcontainer_in_cwd() {
    assert_eq!(search("/tmp/x", &["/tmp/x/.devcontainer"]), Some("/tmp/x".to_string()));
}

#[test]
fn finds_devcontainer_in_parent() {
    assert_eq!(
        search("/tmp/x/subdir/nested", &["/tmp/x/.devcontainer"]),
        Some("/tmp/x".to_string())
    );
}

#[test]
fn returns_none_when_no_devcontainer() {
    assert_eq!(search("/tmp/x", &[]), None);
}

#[test]
fn nearest_devcontainer_wins() {
    assert_eq!(
        search("/a/b/c", &["/a/.devcontainer", "/a/b/.devcontainer"]),
        Some("/a/b".to_string())
    );
    assert_eq!(search("/a", &["/.devcontainer"]), Some("/".to_string()));
}

#[test]
fn parses_image_based() {
    let dc = load(
        "/tmp/x",
        r#"{
                "image": "ghcr.io/example/img:latest",
                "workspaceFolder": "/workspaces/${localWorkspaceFolderBasename}",
                "remoteUser": "wm",
                "postCreateCommand": "/opt/wellmade/bin/postcreate.sh"
            }"#,
    )
    .unwrap();
    assert_eq!(dc.image.as_deref(), Some("ghcr.io/example/img:latest"));
    assert!(!dc.is_compose());
    assert_eq!(dc.remote_user.as_deref(), Some("wm"));
    assert_eq!(dc.post_create.len(), 1);
}

#[test]
fn parses_compose_based_string_and_array() {
    let dc = load(
        "/tmp/x",
        r#"{
                "dockerComposeFile": "docker-compose.yml",
                "service": "app",
                "runServices": ["app", "db"],
                "workspaceFolder": "/workspaces/proj"
            }"#,
    )
    .unwrap();
    assert!(dc.is_compose());
    assert_eq!(dc.compose_files, vec!["docker-compose.yml".to_string()]);
    assert_eq!(dc.service.as_deref(), Some("app"));
    assert_eq!(dc.run_services, vec!["app", "db"]);
}

#[test]
fn strips_comments_and_trailing_commas() {
    let dc = load(
        "/tmp/x",
        r#"{
                // a line comment
                "image": "x", /* block */
                "remoteUser": "wm", // trailing after value
            }"#,
    )
    .unwrap();
    assert_eq!(dc.image.as_deref(), Some("x"));
    assert_eq!(dc.remote_user.as_deref(), Some("wm"));
}

#[test]
fn does_not_strip_slashes_inside_strings() {
    let dc = load(
        "/tmp/x",
        r#"{ "postCreateCommand": "echo http://example.com // not a comment" }"#,
    )
    .unwrap();
    match &dc.post_create[0] {
        PostCreateCommand::Shell(s) => {
            assert_eq!(s, "echo http://example.com // not a comment")
        }
        _ => panic!("expected shell command"),
    }
}

#[test]
fn expands_workspace_variables() {
    let dc = load(
        "/tmp/x/myproject",
        r#"{ "workspaceFolder": "/workspaces/${localWorkspaceFolderBasename}" }"#,
    )
    .unwrap();
    assert_eq!(dc.resolved_workspace_folder(), "/workspaces/myproject");
}

#[test]
fn workspace_folder_defaults_to_convention() {
    let dc = load("/tmp/x/someapp", r#"{ "image": "x" }"#).unwrap();
    assert_eq!(dc.resolved_workspace_folder(), "/workspaces/someapp");
}

#[test]
fn parses_object_form_post_create() {
    let dc = load(
        "/tmp/x",
        r#"{
                "image": "x",
                "postCreateCommand": {
                    "install": "npm ci",
                    "setup": ["./setup.sh", "--fast"]
                }
            }"#,
    )
    .unwrap();
    assert_eq!(dc.post_create.len(), 2);
}

#[test]
fn named_commands_run_in_the_order_of_their_names() {
    let dc = load(
        "/tmp/x",
        r#"{ "postStartCommand": { "b": ["two", "2"], "a": "one" } }"#,
    )
    .unwrap();
    assert_eq!(dc.post_start.len(), 2);
    assert!(matches!(&dc.post_start[0], PostCreateCommand::Shell(s) if s == "one"));
    assert!(matches!(&dc.post_start[1], PostCreateCommand::Argv(v) if v == &["two", "2"]));
}

#[test]
fn nested_devcontainer_layout() {
    let nested = Some(vec!["web".to_string()]);
    let path = config_path("/tmp/x", false, &nested).unwrap();
    assert_eq!(path, "/tmp/x/.devcontainer/web/devcontainer.json");
    let parsed =
        Devcontainer::load("/tmp/x", Some((path, parse(r#"{ "image": "nested" }"#)))).unwrap();
    assert_eq!(parsed.image.as_deref(), Some("nested"));
}

#[test]
fn first_nested_config_by_name_is_taken() {
    let nested = Some(vec!["web".to_string(), "api".to_string(), "db".to_string()]);
    assert_eq!(
        config_path("/tmp/x", false, &nested).as_deref(),
        Some("/tmp/x/.devcontainer/api/devcontainer.json")
    );
    assert_eq!(
        config_path("/tmp/x", true, &nested).as_deref(),
        Some("/tmp/x/.devcontainer/devcontainer.json")
    );
    assert_eq!(config_path("/tmp/x", false, &Some(vec![])), None);
    assert_eq!(config_path("/tmp/x", false, &None), None);
}

#[test]
fn load_errors_say_what_is_wrong() {
    let missing = Devcontainer::load("/p", None).err().unwrap();
    assert_eq!(missing.message(), "no devcontainer.json found under .devcontainer/");
    let malformed = Devcontainer::load(
        "/p",
        Some(("/p/d.json".to_string(), Source::Malformed("bad".to_string()))),
    )
    .err()
    .unwrap();
    assert_eq!(malformed.message(), "failed to parse /p/d.json: bad");
    let unreadable = Devcontainer::load(
        "/p",
        Some(("/p/d.json".to_string(), Source::Unreadable("no".to_string()))),
    )
    .err()
    .unwrap();
    assert_eq!(unreadable.message(), "i/o error reading devcontainer.json: no");
}

#[test]
fn stack_files_are_config_compose_and_dockerfile() {
    let dc = load(
        "/p",
        r#"{ "dockerComposeFile": ["a.yml", "/abs/b.yml"], "build": { "dockerfile": "../Dockerfile" } }"#,
    )
    .unwrap();
    assert_eq!(
        dc.stack_files(),
        vec![
            "/p/.devcontainer/devcontainer.json",
            "/p/.devcontainer/a.yml",
            "/abs/b.yml",
            "/p/.devcontainer/../Dockerfile",
        ]
    );
    let legacy = load("/p", r#"{ "dockerFile": "Dockerfile" }"#).unwrap();
    assert_eq!(legacy.stack_files()[1], "/p/.devcontainer/Dockerfile");
}

#[test]
fn forward_ports_name_a_port_or_a_host_and_a_port() {
    let dc = load(
        "/p",
        r#"{ "forwardPorts": [3000, "db:5432", "8080", "db:http", "x:70000"] }"#,
    )
    .unwrap();
    let got: Vec<(String, u16, u16)> = dc
        .forward_ports
        .iter()
        .map(|p| (p.target_host.clone(), p.container_port, p.desired_host_port))
        .collect();
    assert_eq!(
        got,
        vec![
            ("localhost".to_string(), 3000, 3000),
            ("db".to_string(), 5432, 5432),
            ("localhost".to_string(), 8080, 8080),
        ]
    );
}

#[test]
fn variables_are_expanded_and_other_text_is_kept() {
    assert_eq!(
        expand_variables("${localWorkspaceFolder}/${localWorkspaceFolderBasename}", "/home/u/p"),
        "/home/u/p/p"
    );
    assert_eq!(expand_variables("/plain/${other}", "/home/u/p"), "/plain/${other}");
    assert_eq!(default_workspace_folder("/home/u/p"), "/workspaces/p");
}

#[test]
fn codenames_follow_the_workspaces_directory() {
    assert_eq!(codename::derive("/home/user/workspaces/totophe/devcon"), "totophe_devcon");
    assert_eq!(codename::derive("/home/user/workspaces/myproject"), "myproject");
    assert_eq!(codename::derive("/home/user/projects/myapp"), "myapp");
    assert_eq!(codename::derive("/home/user/workspaces"), "workspaces");
    assert_eq!(codename::derive("/"), "workspace");
}

#[test]
fn workspace_prefers_the_mount_then_the_config_then_the_convention() {
    let dc = load("/p", r#"{ "workspaceFolder": "/code" }"#).unwrap();
    let mounts = Ok("/x\t/data\n/p\t/workspaces/p\n".to_string());
    assert_eq!(workspace::resolve(&dc, &mounts), "/workspaces/p");
    let fallback = Ok("/x\t/workspaces/other\n/y\t/workspaces/more\n".to_string());
    assert_eq!(workspace::resolve(&dc, &fallback), "/workspaces/other");
    let none = Ok("/x\t/data\n/y\n".to_string());
    assert_eq!(workspace::resolve(&dc, &none), "/code");
    let failed = Err(devcon::docker::Error::DockerNotFound);
    assert_eq!(workspace::resolve(&dc, &failed), "/code");
    let bare = load("/p", "{}").unwrap();
    assert_eq!(workspace::resolve(&bare, &failed), "/workspaces/p");
}

#[test]
fn comment_outside_a_string_makes_no_difference() {
    let texts = [
        ("", "{}"),
        ("{\"a\": 1", ", \"b\": \"//\"}"),
        ("[1, ", "]"),
        ("/* c */", "2"),
        ("{\"a\\\"/*\": // x\n", "3,}"),
        ("1 / 2", " / 3"),
    ];
    for (a, b) in texts {
        for x in ["", " note ", "*", "/*", "\"", "\n//"] {
            assert_eq!(strip_jsonc(&format!("{a}/*{x}*/{b}")), strip_jsonc(&format!("{a}{b}")));
        }
        for y in ["", " note ", "*/", "\"", "/* open"] {
            assert_eq!(
                strip_jsonc(&format!("{a}//{y}\n{b}")),
                strip_jsonc(&format!("{a}\n{b}"))
            );
        }
    }
    // After a lone slash it would be another comment.
    assert_ne!(strip_jsonc("1 //* x */2"), strip_jsonc("1 /2"));
}

#[test]
fn jsonc_keeps_strings_and_drops_the_rest() {
    assert_eq!(strip_jsonc("{\"a\": \"/* no */\", /* yes */ }"), "{\"a\": \"/* no */\"  }");
    assert_eq!(strip_jsonc("[1, 2, ]"), "[1, 2 ]");
    assert_eq!(strip_trailing_commas("{\"a\": \",]\", }"), "{\"a\": \",]\" }");
    assert_eq!(strip_jsonc("{} // end"), "{} ");
    assert_eq!(strip_jsonc("[/* open"), "[");
    assert_eq!(strip_jsonc("1 / 2"), "1 / 2");
    assert_eq!(strip_jsonc("[1,,]"), "[1,]");
    assert_eq!(strip_jsonc("{\"a\": \"\\\"//\"}"), "{\"a\": \"\\\"//\"}");
}

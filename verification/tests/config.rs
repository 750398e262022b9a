use devcon::config::{
    global_path, load_file, project_config_path, save_warning, Config, ConfigFile, OtherKey,
};
use serde_json::Value;

fn key(name: &str, json: &str) -> OtherKey {
    OtherKey { name: name.to_string(), json: json.to_string() }
}

/// What a config file with these contents, if there is one, comes to.
fn read(contents: Option<&str>) -> ConfigFile {
    let Some(contents) = contents else {
        return ConfigFile::Missing;
    };
    match serde_json::from_str::<Value>(contents) {
        Ok(v) => ConfigFile::Parsed(Config {
            shell: v.get("shell").and_then(Value::as_str).map(str::to_string),
            mouse: v.get("mouse").and_then(Value::as_bool),
            other: v
                .as_object()
                .unwrap()
                .iter()
                .filter(|(name, _)| *name != "shell" && *name != "mouse")
                .map(|(name, value)| key(name, &value.to_string()))
                .collect(),
        }),
        Err(e) => ConfigFile::Malformed(e.to_string()),
    }
}

/// The contents of a config file that holds a config.
fn write(config: &Config) -> String {
    let mut map = serde_json::Map::new();
    if let Some(shell) = &config.shell {
        map.insert("shell".to_string(), Value::String(shell.clone()));
    }
    if let Some(mouse) = config.mouse {
        map.insert("mouse".to_string(), Value::Bool(mouse));
    }
    for other in &config.other {
        map.insert(other.name.clone(), serde_json::from_str(&other.json).unwrap());
    }
    serde_json::to_string_pretty(&Value::Object(map)).unwrap()
}

fn load(contents: Option<&str>) -> Config {
    load_file(&project_config_path("/p"), read(contents)).0
}

fn persist(contents: Option<&str>, shell: &str) -> String {
    write(&Config::persist_shell(load(contents), shell))
}

#[test]
fn reads_project_shell() {
    let cfg = load(Some(r#"{"shell": "/bin/zsh"}"#));
    assert_eq!(cfg.shell.as_deref(), Some("/bin/zsh"));
}

#[test]
fn missing_file_returns_default() {
    let cfg = load(None);
    assert!(cfg.shell.is_none());
}

#[test]
fn invalid_json_returns_default() {
    let cfg = load(Some("not json"));
    assert!(cfg.shell.is_none());
}

#[test]
fn persist_shell_creates_and_roundtrips() {
    let contents = persist(None, "/usr/bin/zsh");
    let cfg = load(Some(&contents));
    assert_eq!(cfg.shell.as_deref(), Some("/usr/bin/zsh"));
}

#[test]
fn persist_shell_preserves_other_keys() {
    let contents = persist(Some(r#"{"mouse": false}"#), "/bin/bash");
    let cfg = load(Some(&contents));
    assert_eq!(cfg.shell.as_deref(), Some("/bin/bash"));
    assert_eq!(cfg.mouse, Some(false));
}

#[test]
fn persist_shell_keeps_keys_it_does_not_know() {
    let contents = persist(Some(r#"{"theme": "dark", "panes": [1, 2]}"#), "/bin/bash");
    let v: Value = serde_json::from_str(&contents).unwrap();
    assert_eq!(v.get("theme").and_then(Value::as_str), Some("dark"));
    assert_eq!(v.get("panes").unwrap().to_string(), "[1,2]");
    assert_eq!(v.get("shell").and_then(Value::as_str), Some("/bin/bash"));
    assert_eq!(v.as_object().unwrap().len(), 3);
}

#[test]
fn malformed_config_is_warned_about() {
    let (cfg, warning) =
        load_file("/p/devcon.json", ConfigFile::Malformed("oops".to_string()));
    assert!(cfg.shell.is_none() && cfg.mouse.is_none());
    assert_eq!(warning.as_deref(), Some("warning: could not parse /p/devcon.json: oops"));
    assert_eq!(load_file("/p", ConfigFile::Missing).1, None);
}

#[test]
fn project_config_wins_over_the_global_one() {
    let project = Config { shell: Some("/bin/zsh".to_string()), mouse: None, other: vec![key("a", "1")] };
    let global = Config {
        shell: Some("/bin/bash".to_string()),
        mouse: Some(true),
        other: vec![key("a", "2"), key("b", "3")],
    };
    let merged = Config::load(&project, &global);
    assert_eq!(merged.shell.as_deref(), Some("/bin/zsh"));
    assert_eq!(merged.mouse, Some(true));
    assert_eq!(merged.other, vec![key("a", "1"), key("b", "3")]);
    let fallback = Config::load(&Config::default(), &global);
    assert_eq!(fallback.shell.as_deref(), Some("/bin/bash"));
}

#[test]
fn config_paths_lie_where_they_are_documented() {
    assert_eq!(project_config_path("/p"), "/p/.devcontainer/devcon.json");
    assert_eq!(
        global_path(Some("/home/u/.config")).as_deref(),
        Some("/home/u/.config/devcon/config.json")
    );
    assert_eq!(global_path(None), None);
    assert_eq!(save_warning("full"), "warning: could not save shell choice: full");
}

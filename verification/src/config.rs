//! Per-project + global `devcon` configuration.
//!
//! Project config lives at `.devcontainer/devcon.json`; global fallback at
//! `~/.config/devcon/config.json`. Precedence: project over global.
//!
//! The project config is *writable*: when the shell can't be auto-detected
//! unambiguously, the answer to the prompt is persisted there, so subsequent
//! launches are silent.

use crate::devcontainer::config_dir;
use crate::path::{join, under};
use crate::text::{copy_option, same};
use vstd::prelude::*;

verus! {

/// A key of a config file that means nothing here, with its value as it is
/// written in JSON.
#[derive(Debug, Clone, PartialEq, Eq)]
pub struct OtherKey {
    pub name: String,
    pub json: String,
}

/// An [`OtherKey`] as plain values.
#[verifier::ext_equal]
pub struct OtherKeyView {
    pub name: Seq<char>,
    pub json: Seq<char>,
}

impl DeepView for OtherKey {
    type V = OtherKeyView;

    open spec fn deep_view(&self) -> OtherKeyView {
        OtherKeyView { name: self.name@, json: self.json@ }
    }
}

/// What a config says.
#[derive(Debug, Clone)]
pub struct Config {
    pub shell: Option<String>,
    pub mouse: Option<bool>,
    /// What else the file holds. It is kept when the file is written.
    pub other: Vec<OtherKey>,
}

/// A [`Config`] as plain values.
#[verifier::ext_equal]
pub struct ConfigView {
    pub shell: Option<Seq<char>>,
    pub mouse: Option<bool>,
    pub other: Seq<OtherKeyView>,
}

impl DeepView for Config {
    type V = ConfigView;

    open spec fn deep_view(&self) -> ConfigView {
        ConfigView {
            shell: self.shell.deep_view(),
            mouse: self.mouse,
            other: self.other.deep_view(),
        }
    }
}

/// A config that says nothing.
pub open spec fn silent() -> ConfigView {
    ConfigView { shell: None, mouse: None, other: seq![] }
}

impl Default for Config {
    fn default() -> (r: Self)
        ensures
            r.deep_view() == silent(),
    {
        let r = Config { shell: None, mouse: None, other: Vec::new() };
        assert(r.deep_view() == silent());
        r
    }
}

/// What reading a config file came to.
#[derive(Debug)]
pub enum ConfigFile {
    /// There is none, or it cannot be read.
    Missing,
    /// It holds no config, and why.
    Malformed(String),
    Parsed(Config),
}

/// What a config file says: one that is missing or malformed says nothing.
pub open spec fn file_says(file: ConfigFile) -> ConfigView {
    match file {
        ConfigFile::Parsed(config) => config.deep_view(),
        _ => silent(),
    }
}

/// The warning of a config file that cannot be parsed.
pub open spec fn file_warning(path: Seq<char>, why: Seq<char>) -> Seq<char> {
    "warning: could not parse "@ + path + ": "@ + why
}

/// What a config file says, with a warning of one that cannot be parsed.
pub fn load_file(path: &str, file: ConfigFile) -> (r: (Config, Option<String>))
    ensures
        r.0.deep_view() == file_says(file),
        r.1.deep_view() == match file {
            ConfigFile::Malformed(why) => Some(file_warning(path@, why@)),
            _ => None,
        },
{
    match file {
        ConfigFile::Missing => (Config::default(), None),
        ConfigFile::Malformed(why) => {
            let mut warning: String = "warning: could not parse ".to_owned();
            warning.append(path);
            warning.append(": ");
            warning.append(why.as_str());
            (Config::default(), Some(warning))
        },
        ConfigFile::Parsed(config) => (config, None),
    }
}

/// A key is among some others.
pub open spec fn has_key(keys: Seq<OtherKeyView>, name: Seq<char>) -> bool {
    exists|i: int| 0 <= i < keys.len() && (#[trigger] keys[i]).name == name
}

/// The keys that are not among some others.
pub open spec fn keys_beyond(keys: Seq<OtherKeyView>, known: Seq<OtherKeyView>) -> Seq<
    OtherKeyView,
> {
    keys.filter(|k: OtherKeyView| !has_key(known, k.name))
}

/// One config over another: each setting is that of the first to have it.
pub open spec fn over(project: ConfigView, global: ConfigView) -> ConfigView {
    ConfigView {
        shell: if project.shell is Some {
            project.shell
        } else {
            global.shell
        },
        mouse: if project.mouse is Some {
            project.mouse
        } else {
            global.mouse
        },
        other: project.other + keys_beyond(global.other, project.other),
    }
}

/// A config with the shell set.
pub open spec fn with_shell(config: ConfigView, shell: Seq<char>) -> ConfigView {
    ConfigView { shell: Some(shell), ..config }
}

/// Whether a key is among some others.
fn knows_key(keys: &Vec<OtherKey>, name: &str) -> (r: bool)
    ensures
        r == has_key(keys.deep_view(), name@),
{
    let mut i: usize = 0;
    while i < keys.len()
        invariant
            i <= keys.len(),
            forall|j: int| 0 <= j < i ==> (#[trigger] keys.deep_view()[j]).name != name@,
        decreases keys.len() - i,
    {
        assert(keys.deep_view()[i as int] == keys@[i as int].deep_view());
        if same(keys[i].name.as_str(), name) {
            return true;
        }
        i += 1;
    }
    false
}

/// Put copies of the keys that are not among the `known` ones behind a list.
fn add_keys(list: &mut Vec<OtherKey>, keys: &Vec<OtherKey>, known: &Vec<OtherKey>)
    ensures
        final(list).deep_view() == old(list).deep_view() + keys_beyond(
            keys.deep_view(),
            known.deep_view(),
        ),
{
    let ghost views = keys.deep_view();
    let ghost is_new = |k: OtherKeyView| !has_key(known.deep_view(), k.name);
    let ghost had = list.deep_view();
    let mut i: usize = 0;
    proof {
        reveal(Seq::filter);
        assert(views.take(0).filter(is_new) == Seq::<OtherKeyView>::empty());
        assert(list.deep_view() == had + views.take(0).filter(is_new));
    }
    while i < keys.len()
        invariant
            views == keys.deep_view(),
            is_new == (|k: OtherKeyView| !has_key(known.deep_view(), k.name)),
            i <= keys.len(),
            list.deep_view() == had + views.take(i as int).filter(is_new),
        decreases keys.len() - i,
    {
        let key = &keys[i];
        let ghost view = views[i as int];
        let ghost now = list.deep_view();
        proof {
            assert(view == key.deep_view());
            assert(views.take(i + 1) == views.take(i as int).push(view));
            views.take(i as int).lemma_filter_push(view, is_new);
        }
        if !knows_key(known, key.name.as_str()) {
            list.push(OtherKey { name: key.name.clone(), json: key.json.clone() });
            assert(list.deep_view() == now.push(view));
        }
        assert(list.deep_view() == had + views.take(i + 1).filter(is_new));
        i += 1;
    }
    assert(views.take(i as int) == views);
}

impl Config {
    /// Merge configs: project-level over global.
    pub fn load(project: &Config, global: &Config) -> (r: Self)
        ensures
            r.deep_view() == over(project.deep_view(), global.deep_view()),
    {
        let mut other: Vec<OtherKey> = Vec::new();
        let none: Vec<OtherKey> = Vec::new();
        proof {
            lemma_beyond_none(project.other.deep_view());
            assert(none.deep_view() == Seq::<OtherKeyView>::empty());
            assert(other.deep_view() == Seq::<OtherKeyView>::empty());
        }
        add_keys(&mut other, &project.other, &none);
        assert(other.deep_view() == project.other.deep_view());
        add_keys(&mut other, &global.other, &project.other);
        Config {
            shell: if project.shell.is_some() {
                copy_option(&project.shell)
            } else {
                copy_option(&global.shell)
            },
            mouse: if project.mouse.is_some() {
                project.mouse
            } else {
                global.mouse
            },
            other,
        }
    }

    /// What the project's config is to hold once the resolved shell is
    /// persisted: merged with whatever is already there, so that other keys
    /// are never clobbered.
    pub fn persist_shell(current: Config, shell: &str) -> (r: Self)
        ensures
            r.deep_view() == with_shell(current.deep_view(), shell@),
    {
        Config { shell: Some(shell.to_owned()), mouse: current.mouse, other: current.other }
    }
}

/// Every key is beyond none.
proof fn lemma_beyond_none(keys: Seq<OtherKeyView>)
    ensures
        keys_beyond(keys, seq![]) == keys,
    decreases keys.len(),
{
    reveal(Seq::filter);
    if keys.len() > 0 {
        lemma_beyond_none(keys.drop_last());
        assert(keys == keys.drop_last().push(keys.last()));
    }
}

/// `<project_root>/.devcontainer/devcon.json`
pub fn project_config_path(project_root: &str) -> (r: String)
    ensures
        r@ == under(config_dir(project_root@), "devcon.json"@),
{
    join(join(project_root, ".devcontainer").as_str(), "devcon.json")
}

/// `devcon/config.json` in the user's config directory, if there is one.
pub fn global_path(dir: Option<&str>) -> (r: Option<String>)
    ensures
        r.deep_view() == match dir.deep_view() {
            Some(dir) => Some(under(under(dir, "devcon"@), "config.json"@)),
            None => None,
        },
{
    match dir {
        Some(dir) => Some(join(join(dir, "devcon").as_str(), "config.json")),
        None => None,
    }
}

/// The warning that a shell choice could not be saved.
pub fn save_warning(why: &str) -> (r: String)
    ensures
        r@ == "warning: could not save shell choice: "@ + why@,
{
    let mut r: String = "warning: could not save shell choice: ".to_owned();
    r.append(why);
    r
}

// ---------------------------------------------------------------------------
// Laws
// ---------------------------------------------------------------------------

/// What the project says wins; where it says nothing, the global config counts
/// as it is.
pub proof fn law_project_wins(project: ConfigView, global: ConfigView)
    ensures
        project.shell is Some ==> over(project, global).shell == project.shell,
        project.mouse is Some ==> over(project, global).mouse == project.mouse,
        project.other.is_prefix_of(over(project, global).other),
        over(silent(), global) == global,
        over(project, silent()) == project,
{
    lemma_beyond_none(global.other);
    reveal(Seq::filter);
    assert(over(silent(), global) == global);
    assert(over(project, silent()) == project);
}

/// A persisted shell is read back, over any global config, and nothing else
/// of the project's config changes.
pub proof fn law_persisted_shell_is_read_back(
    current: ConfigView,
    global: ConfigView,
    shell: Seq<char>,
)
    ensures
        over(with_shell(current, shell), global).shell == Some(shell),
        with_shell(current, shell).mouse == current.mouse,
        with_shell(current, shell).other == current.other,
{
}

/// Each setting falls back by itself: what the project leaves open is what the
/// global config says.
pub proof fn law_each_setting_falls_back(project: ConfigView, global: ConfigView, i: int)
    ensures
        project.shell is None ==> over(project, global).shell == global.shell,
        project.mouse is None ==> over(project, global).mouse == global.mouse,
        0 <= i < global.other.len() && !has_key(project.other, global.other[i].name) ==> over(
            project,
            global,
        ).other.contains(global.other[i]),
{
    if 0 <= i < global.other.len() && !has_key(project.other, global.other[i].name) {
        let is_new = |k: OtherKeyView| !has_key(project.other, k.name);
        global.other.lemma_filter_contains(is_new, i);
        let beyond = keys_beyond(global.other, project.other);
        let k = beyond.index_of(global.other[i]);
        assert(over(project, global).other[project.other.len() + k] == global.other[i]);
    }
}

/// A config file says what it holds, and nothing where it holds no config.
pub proof fn law_file_says(config: Config, why: String)
    ensures
        file_says(ConfigFile::Parsed(config)) == config.deep_view(),
        file_says(ConfigFile::Missing).shell is None,
        file_says(ConfigFile::Missing).mouse is None,
        file_says(ConfigFile::Malformed(why)).shell is None,
        file_says(ConfigFile::Malformed(why)).mouse is None,
{
}

} // verus!

use devcon::connect;
use devcon::docker::Container;
use devcon::request::{Outcome, Reply, Request};
use devcon::shell::{resolve, resolve_on, ShellStep};

fn container() -> Container {
    Container { id: "c1".to_string(), name: "proj".to_string() }
}

fn ran(success: bool, stdout: &str) -> Reply {
    Reply::Ran(Outcome::Exited {
        success,
        stdout: stdout.as_bytes().to_vec(),
        stderr: vec![],
    })
}

/// Resolve the shell in a container with these executables and this `$SHELL`.
fn pick(env: &str, executables: &[&str], interactive: bool, answer: &str) -> (String, bool) {
    let c = container();
    let mut step = resolve(None, None, &c);
    loop {
        match step {
            ShellStep::Wait(request, at) => {
                let reply = match &request {
                    Request::Capture(args) => {
                        assert_eq!(args, &["exec", "c1", "sh", "-c", "echo $SHELL"]);
                        ran(true, env)
                    }
                    Request::Run { args, .. } => {
                        assert_eq!(args[..4], ["exec", "c1", "test", "-x"]);
                        ran(executables.contains(&args[4].as_str()), "")
                    }
                    Request::Ask(question) => {
                        assert!(interactive);
                        assert!(question.contains("  1) /bin/bash\n  2) /bin/sh\nChoice [1]: "));
                        Reply::Line(Ok(answer.to_string()))
                    }
                    other => panic!("{other:?}"),
                };
                step = resolve_on(&c, interactive, at, reply);
            }
            ShellStep::Done { shell, persist } => return (shell, persist),
        }
    }
}

#[test]
fn flag_beats_config_beats_detection() {
    let c = container();
    assert!(matches!(
        resolve(Some("/bin/fish"), Some("/bin/zsh"), &c),
        ShellStep::Done { shell, persist: false } if shell == "/bin/fish"
    ));
    assert!(matches!(
        resolve(None, Some("/bin/zsh"), &c),
        ShellStep::Done { shell, persist: false } if shell == "/bin/zsh"
    ));
    assert!(matches!(resolve(None, None, &c), ShellStep::Wait(..)));
}

#[test]
fn own_shell_is_taken_if_it_is_real() {
    assert_eq!(
        pick("/bin/zsh\n", &["/bin/zsh", "/bin/bash"], true, ""),
        ("/bin/zsh".to_string(), false)
    );
    assert_eq!(
        pick("/bin/gone\n", &["/bin/sh"], true, ""),
        ("/bin/sh".to_string(), false)
    );
    assert_eq!(pick("zsh\n", &["/bin/bash"], true, ""), ("/bin/bash".to_string(), false));
}

#[test]
fn no_candidate_falls_back_to_sh() {
    assert_eq!(pick("\n", &[], true, ""), ("/bin/sh".to_string(), false));
}

#[test]
fn several_candidates_are_asked_about_and_remembered() {
    let both = ["/bin/bash", "/bin/sh"];
    assert_eq!(pick("", &both, true, "2\n"), ("/bin/sh".to_string(), true));
    assert_eq!(pick("", &both, true, " +1 \n"), ("/bin/bash".to_string(), true));
    assert_eq!(pick("", &both, true, "\n"), ("/bin/bash".to_string(), true));
    assert_eq!(pick("", &both, true, "3\n"), ("/bin/bash".to_string(), true));
    assert_eq!(pick("", &both, true, "what\n"), ("/bin/bash".to_string(), true));
    assert_eq!(pick("", &both, false, ""), ("/bin/bash".to_string(), true));
}

#[test]
fn connects_with_an_interactive_exec() {
    let c = container();
    assert_eq!(
        connect::shell(&c, Some("wm"), "/workspaces/p", "/bin/zsh"),
        vec!["exec", "-it", "-u", "wm", "-w", "/workspaces/p", "c1", "/bin/zsh"]
    );
    assert_eq!(
        connect::shell(&c, None, "/w", "/bin/sh"),
        vec!["exec", "-it", "-w", "/w", "c1", "/bin/sh"]
    );
    assert_eq!(
        connect::connecting(&c, "/w"),
        "\x1b[36mdevcon:\x1b[0m connecting to proj (/w) …"
    );
}

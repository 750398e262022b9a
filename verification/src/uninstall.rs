//! `devcon self uninstall`: take devcon back off this machine.
//!
//! Deliberately narrow: there is exactly one thing of its own to remove, the
//! binary. Projects and containers are left entirely alone.

use crate::text::{lemma_occurs_inside, occurs};
use vstd::prelude::*;

verus! {

/// How an uninstallation ends: what is printed on stdout and on stderr, and
/// the exit code.
#[derive(Debug)]
pub struct Exit {
    pub out: String,
    pub err: String,
    pub code: i32,
}

/// What an uninstallation does next.
#[derive(Debug)]
pub enum Uninstall {
    /// Remove this file, then go on with how that went.
    Remove(String),
    Exit(Exit),
}

/// What is printed for a dry run.
pub open spec fn dry_run_text(exe: Seq<char>) -> Seq<char> {
    "would remove "@ + exe
        + "\n\nDry run: nothing was changed. Re-run without --dry-run to apply.\n"@
}

/// What is printed once the binary is gone.
pub open spec fn removed_text(exe: Seq<char>) -> Seq<char> {
    "remove "@ + exe
        + "\n\nUninstalled.\nYour containers and any .devcontainer/devcon.json files are untouched — \nthose belong to your projects and to Docker, not to devcon.\n"@
}

/// What is printed where the binary could not be removed.
pub open spec fn failed_text(exe: Seq<char>, why: Seq<char>) -> Seq<char> {
    "devcon: could not remove "@ + exe + ": "@ + why
        + "\n        If devcon came from a package, uninstall it with your package manager.\n"@
}

/// Uninstall: the first step, given where the running binary is.
pub fn run(dry_run: bool, exe: Option<String>) -> (r: Uninstall)
    ensures
        match exe {
            None => r matches Uninstall::Exit(e) && e.out@.len() == 0 && e.err@
                == "devcon: cannot locate my own binary; remove it by hand\n"@ && e.code == 1,
            Some(exe) => if dry_run {
                r matches Uninstall::Exit(e) && e.out@ == dry_run_text(exe@) && e.err@.len() == 0
                    && e.code == 0
            } else {
                r == Uninstall::Remove(exe)
            },
        },
{
    match exe {
        None => Uninstall::Exit(
            Exit {
                out: String::new(),
                err: "devcon: cannot locate my own binary; remove it by hand\n".to_owned(),
                code: 1,
            },
        ),
        Some(exe) => {
            if !dry_run {
                return Uninstall::Remove(exe);
            }
            let mut out: String = "would remove ".to_owned();
            out.append(exe.as_str());
            out.append("\n\nDry run: nothing was changed. Re-run without --dry-run to apply.\n");
            Uninstall::Exit(Exit { out, err: String::new(), code: 0 })
        },
    }
}

/// Uninstall: the end, given how removing the binary went. A package-managed
/// install fails here, which is correct: the package manager owns that file.
pub fn run_on(exe: &str, removed: Result<(), String>) -> (r: Exit)
    ensures
        match removed {
            Ok(_) => r.out@ == removed_text(exe@) && r.err@.len() == 0 && r.code == 0,
            Err(why) => r.out@.len() == 0 && r.err@ == failed_text(exe@, why@) && r.code == 1,
        },
{
    match removed {
        Ok(_) => {
            let mut out: String = "remove ".to_owned();
            out.append(exe);
            out.append(
                "\n\nUninstalled.\nYour containers and any .devcontainer/devcon.json files are untouched — \nthose belong to your projects and to Docker, not to devcon.\n",
            );
            Exit { out, err: String::new(), code: 0 }
        },
        Err(why) => {
            let mut err: String = "devcon: could not remove ".to_owned();
            err.append(exe);
            err.append(": ");
            err.append(why.as_str());
            err.append(
                "\n        If devcon came from a package, uninstall it with your package manager.\n",
            );
            Exit { out: String::new(), err, code: 1 }
        },
    }
}

/// What is printed names the binary that is removed, would be, or could not
/// be; and only where it could not be, why.
pub proof fn law_binary_is_named(exe: Seq<char>, why: Seq<char>)
    ensures
        occurs(dry_run_text(exe), exe),
        occurs(removed_text(exe), exe),
        occurs(failed_text(exe, why), exe),
        occurs(failed_text(exe, why), why),
        "would remove "@.is_prefix_of(dry_run_text(exe)),
        "remove "@.is_prefix_of(removed_text(exe)),
{
    let dry = "\n\nDry run: nothing was changed. Re-run without --dry-run to apply.\n"@;
    lemma_occurs_inside("would remove "@, exe, dry, exe);
    let removed = removed_text(exe);
    let gone = removed.skip("remove "@.len() as int + exe.len() as int);
    assert(removed == "remove "@ + exe + gone);
    lemma_occurs_inside("remove "@, exe, gone, exe);
    let last = "\n        If devcon came from a package, uninstall it with your package manager.\n"@;
    let front = "devcon: could not remove "@;
    lemma_occurs_inside(front, exe, ": "@ + why + last, exe);
    assert(front + exe + (": "@ + why + last) == failed_text(exe, why));
    lemma_occurs_inside(front + exe + ": "@, why, last, why);
    let n = "would remove "@.len() as int;
    assert(dry_run_text(exe).subrange(0, n) == "would remove "@);
    let m = "remove "@.len() as int;
    assert(removed.subrange(0, m) == "remove "@);
}

} // verus!

//! The final step: an interactive shell inside the container.

use crate::docker::container::add_arg;
use crate::docker::Container;
use crate::request::strings;
use crate::text::{lemma_occurs_inside, occurs};
use vstd::prelude::*;

verus! {

/// `docker exec -it [-u user] -w workdir <container> <shell>`.
pub open spec fn shell_args(
    id: Seq<char>,
    user: Option<Seq<char>>,
    workdir: Seq<char>,
    shell: Seq<char>,
) -> Seq<Seq<char>> {
    seq!["exec"@, "-it"@] + match user {
        Some(u) => seq!["-u"@, u],
        None => seq![],
    } + seq!["-w"@, workdir, id, shell]
}

/// The arguments that open an interactive shell in the container.
pub fn shell(container: &Container, user: Option<&str>, workdir: &str, program: &str) -> (r: Vec<
    String,
>)
    ensures
        r.deep_view() == shell_args(container.id@, user.deep_view(), workdir@, program@),
{
    let mut r = strings(&["exec", "-it"]);
    assert(r.deep_view() == seq!["exec"@, "-it"@]);
    if let Some(u) = user {
        add_arg(&mut r, "-u");
        add_arg(&mut r, u);
    }
    add_arg(&mut r, "-w");
    add_arg(&mut r, workdir);
    add_arg(&mut r, container.id.as_str());
    add_arg(&mut r, program);
    assert(r.deep_view() == shell_args(container.id@, user.deep_view(), workdir@, program@));
    r
}

/// The announcement of the connection.
pub open spec fn connecting_text(name: Seq<char>, workdir: Seq<char>) -> Seq<char> {
    "\x1b[36mdevcon:\x1b[0m connecting to "@ + name + " ("@ + workdir + ") …"@
}

/// The announcement of the connection.
pub fn connecting(container: &Container, workdir: &str) -> (r: String)
    ensures
        r@ == connecting_text(container.name@, workdir@),
{
    let mut r: String = "\x1b[36mdevcon:\x1b[0m connecting to ".to_owned();
    r.append(container.name.as_str());
    r.append(" (");
    r.append(workdir);
    r.append(") …");
    r
}

/// The shell is opened on a terminal, in the container, in the working
/// directory, and as the user if there is one.
pub proof fn law_shell_command_line(
    id: Seq<char>,
    user: Option<Seq<char>>,
    workdir: Seq<char>,
    program: Seq<char>,
)
    ensures
        ({
            let args = shell_args(id, user, workdir, program);
            let u: int = if user is Some {
                2
            } else {
                0
            };
            &&& args.len() == 6 + u
            &&& args[0] == "exec"@ && args[1] == "-it"@
            &&& user matches Some(name) ==> args[2] == "-u"@ && args[3] == name
            &&& args[2 + u] == "-w"@ && args[3 + u] == workdir
            &&& args[4 + u] == id
            &&& args[5 + u] == program
        }),
{
}

/// The announcement names the container and the directory.
pub proof fn law_announcement_names(name: Seq<char>, workdir: Seq<char>)
    ensures
        occurs(connecting_text(name, workdir), name),
        occurs(connecting_text(name, workdir), workdir),
{
    let a = "\x1b[36mdevcon:\x1b[0m connecting to "@;
    let b = " ("@ + workdir + ") …"@;
    lemma_occurs_inside(a, name, b, name);
    assert(a + name + b == connecting_text(name, workdir));
    lemma_occurs_inside(a + name + " ("@, workdir, ") …"@, workdir);
}

} // verus!

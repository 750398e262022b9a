# devcon

Bring up a project's dev container and drop into its shell, from the command
line and without an IDE. The decisions are a library that is proved with
[Verus](https://github.com/verus-lang/verus); a thin program around it runs
docker, reads and writes files, and talks to the user.

## The library

Nothing in `src/` touches the outside world. Where a decision needs an answer
from outside, a function returns a *step*: a request (run this docker command,
read this file, ask this question) together with a state. The caller carries
the request out and hands state and answer to the function of the same name
that ends in `_on`.

| Module | Responsibility |
|---|---|
| `devcontainer` | locate and load `devcontainer.json`; expand `${...}` variables |
| `jsonc` | strip comments and trailing commas |
| `docker` | find the project's container, inspect it, list all projects |
| `lifecycle` | bring the stack up, rebuild it on drift, run its hooks, bring it down |
| `shell`, `workspace`, `connect` | which shell, where, and how to get into it |
| `config` | project and global settings |
| `forward` | relay ports into the container's network |
| `listing`, `uninstall`, `codename` | `devcon ls`, `devcon self uninstall`, container names |
| `text`, `number`, `path`, `table`, `timestamp`, `request` | what the rest is built on |

What each function does is stated in its `ensures`. What holds over several
calls is stated by the `law_*` proof functions: that no container is dropped
without a yes, that a failing hook locks nobody out, that the walk up always
comes to an end, and so on. Most of those about `lifecycle` stand in
`lifecycle/laws.rs`.

Three things are taken on trust, each next to its contract:
`String::push` (`text.rs`), `String::from_utf8_lossy` (`request.rs`) and the
`Debug` form of a text (`forward/helper.rs`).

## The program

`app/` holds `main`, the command line, the JSON shapes of the files, and the
sockets and threads of the port relay.

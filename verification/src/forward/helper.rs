//! The program that is run inside the container to reach a target port.

use crate::docker::container::{exec_args, exec_capture};
use crate::docker::{captured, run_docker, Container};
use crate::number::{decimal, to_decimal};
use crate::request::{strings, Reply, ReplyView, Request, RequestView};
use vstd::prelude::*;

verus! {

/// A program that can open the connection from inside. We can't assume any
/// particular one exists, so we probe for whichever is there.
#[derive(Debug, Clone, Copy, PartialEq, Eq, Structural)]
pub enum Helper {
    Socat,
    Ncat,
    Nc,
    /// bash's `/dev/tcp` pseudo-device: no other binary needed.
    BashDevTcp,
    Python3,
}

/// Probe order: correct stream semantics first, availability second.
pub open spec fn probe_order() -> Seq<Helper> {
    seq![Helper::Socat, Helper::Python3, Helper::Ncat, Helper::Nc, Helper::BashDevTcp]
}

/// The binary whose presence is tested for.
pub open spec fn binary_of(helper: Helper) -> Seq<char> {
    match helper {
        Helper::Socat => "socat"@,
        Helper::Ncat => "ncat"@,
        Helper::Nc => "nc"@,
        Helper::BashDevTcp => "bash"@,
        Helper::Python3 => "python3"@,
    }
}

/// Helpers that pass a client's half-close on to the target.
pub open spec fn passes_half_close(helper: Helper) -> bool {
    helper == Helper::Socat || helper == Helper::Python3
}

impl Helper {
    /// Probe order: correct stream semantics first, availability second.
    ///
    /// The discriminator is [`Helper::half_closes`]: socat and python3 both
    /// propagate a client's half-close, so they lead. The `nc` family only
    /// manages it on some flavours, and bash cannot do it at all, so those are
    /// fallbacks.
    pub fn probe_order() -> (r: Vec<Helper>)
        ensures
            r@ == probe_order(),
    {
        vec![Helper::Socat, Helper::Python3, Helper::Ncat, Helper::Nc, Helper::BashDevTcp]
    }

    /// The binary whose presence is tested for.
    pub fn binary(self) -> (r: &'static str)
        ensures
            r@ == binary_of(self),
    {
        match self {
            Helper::Socat => "socat",
            Helper::Ncat => "ncat",
            Helper::Nc => "nc",
            Helper::BashDevTcp => "bash",
            Helper::Python3 => "python3",
        }
    }

    /// Does this helper pass a client's half-close (`shutdown(SHUT_WR)`) on to
    /// the target, rather than holding the write side open?
    ///
    /// It matters for the minority of protocols where the server reads until
    /// EOF before replying. Against such a server the helpers that can't do
    /// this will hang, so they go last.
    pub fn half_closes(self) -> (r: bool)
        ensures
            r == passes_half_close(self),
    {
        match self {
            Helper::Socat => true,
            Helper::Python3 => true,
            // bash's /dev/tcp gives one read-write fd with no way to call
            // shutdown(2). The nc family varies by flavour.
            Helper::Ncat => false,
            Helper::Nc => false,
            Helper::BashDevTcp => false,
        }
    }
}

// ---------------------------------------------------------------------------
// The relay command
// ---------------------------------------------------------------------------

/// What the python helper runs up to the host.
pub const PYTHON_FRONT: &'static str = "import socket,sys,threading\ns=socket.create_connection((";

/// What the python helper runs from the port on.
pub const PYTHON_BACK: &'static str = "))\ndef up():\n    try:\n        while True:\n            d=sys.stdin.buffer.read1(65536)\n            if not d: break\n            s.sendall(d)\n    finally:\n        try: s.shutdown(socket.SHUT_WR)\n        except OSError: pass\nthreading.Thread(target=up,daemon=True).start()\nwhile True:\n    d=s.recv(65536)\n    if not d: break\n    sys.stdout.buffer.write(d); sys.stdout.buffer.flush()\n";

/// What runs in the container to connect to `host:port` and relay it over
/// stdio; `quoted` is the host as a string literal.
pub open spec fn relay_argv(
    helper: Helper,
    host: Seq<char>,
    port: nat,
    quoted: Seq<char>,
) -> Seq<Seq<char>> {
    match helper {
        Helper::Socat => seq!["socat"@, "-"@, "TCP:"@ + host + ":"@ + decimal(port)],
        Helper::Ncat => seq!["ncat"@, host, decimal(port)],
        Helper::Nc => seq!["nc"@, host, decimal(port)],
        Helper::BashDevTcp => seq![
            "bash"@,
            "-c"@,
            "exec 3<>/dev/tcp/"@ + host + "/"@ + decimal(port)
                + "; cat <&3 & r=$!; cat >&3; exec 3>&-; wait $r"@,
        ],
        Helper::Python3 => seq![
            "python3"@,
            "-c"@,
            PYTHON_FRONT@ + quoted + ","@ + decimal(port) + PYTHON_BACK@,
        ],
    }
}

/// A host name of ASCII letters, digits, dots, dashes and underscores.
pub open spec fn is_plain(host: Seq<char>) -> bool {
    forall|i: int|
        0 <= i < host.len() ==> {
            let c = #[trigger] host[i];
            'a' <= c <= 'z' || 'A' <= c <= 'Z' || '0' <= c <= '9' || c == '.' || c == '-' || c
                == '_'
        }
}

/// A text as `Debug` writes it.
pub uninterp spec fn debug_quoted(s: Seq<char>) -> Seq<char>;

/// `format!` with `{:?}` on a text: the text in double quotes, with what needs
/// it escaped. A plain host name stands between the quotes as it is; what
/// comes of other texts goes by the name `debug_quoted`.
#[verifier::external_body]
fn quote(s: &str) -> (r: String)
    ensures
        r@ == debug_quoted(s@),
        is_plain(s@) ==> r@ == seq!['"'] + s@ + seq!['"'],
{
    format!("{:?}", s)
}

/// The relay command for a host whose string literal is given.
pub fn relay_command_quoted(helper: Helper, host: &str, port: u16, quoted: &str) -> (r: Vec<String>)
    ensures
        r.deep_view() == relay_argv(helper, host@, port as nat, quoted@),
{
    let number = to_decimal(port as u64);
    let r = match helper {
        Helper::Socat => {
            let mut target: String = "TCP:".to_owned();
            target.append(host);
            target.append(":");
            target.append(number.as_str());
            let r = strings(&["socat", "-", target.as_str()]);
            assert(r.deep_view() == seq!["socat"@, "-"@, target@]);
            r
        },
        Helper::Ncat => {
            let r = strings(&["ncat", host, number.as_str()]);
            assert(r.deep_view() == seq!["ncat"@, host@, number@]);
            r
        },
        Helper::Nc => {
            let r = strings(&["nc", host, number.as_str()]);
            assert(r.deep_view() == seq!["nc"@, host@, number@]);
            r
        },
        // Open the socket on fd 3, pump it to stdout in the background and
        // stdin into it in the foreground. We keep reading until the server
        // closes, which is how nearly every real protocol ends anyway.
        Helper::BashDevTcp => {
            let mut script: String = "exec 3<>/dev/tcp/".to_owned();
            script.append(host);
            script.append("/");
            script.append(number.as_str());
            script.append("; cat <&3 & r=$!; cat >&3; exec 3>&-; wait $r");
            let r = strings(&["bash", "-c", script.as_str()]);
            assert(r.deep_view() == seq!["bash"@, "-c"@, script@]);
            r
        },
        Helper::Python3 => {
            let mut script: String = PYTHON_FRONT.to_owned();
            script.append(quoted);
            script.append(",");
            script.append(number.as_str());
            script.append(PYTHON_BACK);
            let r = strings(&["python3", "-c", script.as_str()]);
            assert(r.deep_view() == seq!["python3"@, "-c"@, script@]);
            r
        },
    };
    r
}

/// The argv (after `docker exec -i <container>`) that connects to `host:port`
/// and relays it over stdio.
pub fn relay_command(helper: Helper, host: &str, port: u16) -> (r: Vec<String>)
    ensures
        r.deep_view() == relay_argv(helper, host@, port as nat, debug_quoted(host@)),
        is_plain(host@) ==> r.deep_view() == relay_argv(
            helper,
            host@,
            port as nat,
            seq!['"'] + host@ + seq!['"'],
        ),
{
    let quoted = quote(host);
    relay_command_quoted(helper, host, port, quoted.as_str())
}

// ---------------------------------------------------------------------------
// Detection
// ---------------------------------------------------------------------------

/// What tells whether a helper is in the container.
pub open spec fn probe_args(id: Seq<char>, helper: Helper) -> Seq<Seq<char>> {
    exec_args(id, seq!["sh"@, "-c"@, "command -v "@ + binary_of(helper)])
}

/// A helper is there if the probe says where.
pub open spec fn probe_hits(id: Seq<char>, helper: Helper, reply: ReplyView) -> bool {
    match captured(probe_args(id, helper), reply->Ran_0) {
        Ok(out) => out.len() > 0,
        Err(_) => false,
    }
}

/// Where the look for a helper stands.
#[derive(Debug)]
pub enum DetectStep {
    /// Do what is asked for: it probes for the helper of this index.
    Wait(Request, usize),
    Done(Option<Helper>),
}

/// A [`DetectStep`] as plain values.
#[verifier::ext_equal]
pub enum DetectStepView {
    Wait(RequestView, int),
    Done(Option<Helper>),
}

impl DeepView for DetectStep {
    type V = DetectStepView;

    open spec fn deep_view(&self) -> DetectStepView {
        match self {
            DetectStep::Wait(q, i) => DetectStepView::Wait(q.deep_view(), *i as int),
            DetectStep::Done(h) => DetectStepView::Done(*h),
        }
    }
}

/// Probe for the helper of an index; past the last one there is none.
pub open spec fn detect_at(id: Seq<char>, index: int) -> DetectStepView {
    if index < probe_order().len() {
        DetectStepView::Wait(
            RequestView::Capture(probe_args(id, probe_order()[index])),
            index,
        )
    } else {
        DetectStepView::Done(None)
    }
}

/// Go on with the answer to a probe.
pub open spec fn detect_next(id: Seq<char>, index: int, reply: ReplyView) -> DetectStepView {
    if probe_hits(id, probe_order()[index], reply) {
        DetectStepView::Done(Some(probe_order()[index]))
    } else {
        detect_at(id, index + 1)
    }
}

/// What tells whether a helper is in the container.
fn probe(container: &Container, helper: Helper) -> (r: Vec<String>)
    ensures
        r.deep_view() == probe_args(container.id@, helper),
{
    let mut command: String = "command -v ".to_owned();
    command.append(helper.binary());
    let argv = strings(&["sh", "-c", command.as_str()]);
    assert(argv.deep_view() == seq!["sh"@, "-c"@, command@]);
    exec_capture(container, &argv)
}

fn probe_from(container: &Container, index: usize) -> (r: DetectStep)
    ensures
        r.deep_view() == detect_at(container.id@, index as int),
{
    let order = Helper::probe_order();
    if index < order.len() {
        DetectStep::Wait(Request::Capture(probe(container, order[index])), index)
    } else {
        DetectStep::Done(None)
    }
}

/// Probe the container for a usable helper, best first: the first step.
pub fn detect_helper(container: &Container) -> (r: DetectStep)
    ensures
        r.deep_view() == detect_at(container.id@, 0),
{
    probe_from(container, 0)
}

/// Go on with the look for a helper, with the answer to a probe.
pub fn detect_helper_on(container: &Container, index: usize, reply: Reply) -> (r: DetectStep)
    requires
        index < probe_order().len(),
        reply is Ran,
    ensures
        r.deep_view() == detect_next(container.id@, index as int, reply.deep_view()),
{
    let order = Helper::probe_order();
    if let Reply::Ran(outcome) = reply {
        if let Ok(out) = run_docker(&probe(container, order[index]), outcome) {
            if out.len() > 0 {
                return DetectStep::Done(Some(order[index]));
            }
        }
    }
    probe_from(container, index + 1)
}

// ---------------------------------------------------------------------------
// Laws
// ---------------------------------------------------------------------------

/// Every helper is probed for, and those that half-close before all others.
pub proof fn law_half_closers_first(helper: Helper, i: int, j: int)
    requires
        0 <= i < probe_order().len(),
        0 <= j < probe_order().len(),
    ensures
        probe_order().contains(helper),
        passes_half_close(probe_order()[i]) && !passes_half_close(probe_order()[j]) ==> i < j,
{
    let order = probe_order();
    assert(order[0] == Helper::Socat);
    assert(order[1] == Helper::Python3);
    assert(order[2] == Helper::Ncat);
    assert(order[3] == Helper::Nc);
    assert(order[4] == Helper::BashDevTcp);
}

/// Where the look stands after at most `steps` answers of a world.
pub open spec fn detect_end(
    id: Seq<char>,
    step: DetectStepView,
    world: spec_fn(RequestView) -> ReplyView,
    steps: nat,
) -> DetectStepView
    decreases steps,
{
    match step {
        DetectStepView::Wait(request, index) => if steps == 0 {
            step
        } else {
            detect_end(id, detect_next(id, index, world(request)), world, (steps - 1) as nat)
        },
        DetectStepView::Done(_) => step,
    }
}

/// A helper is in the container, in a world.
pub open spec fn available(
    id: Seq<char>,
    world: spec_fn(RequestView) -> ReplyView,
    helper: Helper,
) -> bool {
    probe_hits(id, helper, world(RequestView::Capture(probe_args(id, helper))))
}

proof fn lemma_detect(
    id: Seq<char>,
    world: spec_fn(RequestView) -> ReplyView,
    index: int,
    steps: nat,
)
    requires
        0 <= index <= 5,
        steps >= 5 - index,
        forall|i: int| 0 <= i < index ==> !available(id, world, #[trigger] probe_order()[i]),
    ensures
        match detect_end(id, detect_at(id, index), world, steps) {
            DetectStepView::Done(Some(helper)) => exists|k: int|
                0 <= k < 5 && helper == #[trigger] probe_order()[k] && available(id, world, helper)
                    && forall|i: int|
                    0 <= i < k ==> !available(id, world, #[trigger] probe_order()[i]),
            DetectStepView::Done(None) => forall|i: int|
                0 <= i < 5 ==> !available(id, world, #[trigger] probe_order()[i]),
            DetectStepView::Wait(..) => false,
        },
    decreases 5 - index,
{
    if index < 5 {
        let helper = probe_order()[index];
        let reply = world(RequestView::Capture(probe_args(id, helper)));
        assert(detect_end(id, detect_at(id, index), world, steps) == detect_end(
            id,
            detect_next(id, index, reply),
            world,
            (steps - 1) as nat,
        ));
        if available(id, world, helper) {
            assert(probe_order()[index] == helper);
        } else {
            lemma_detect(id, world, index + 1, (steps - 1) as nat);
        }
    }
}

/// The helper that is found is the first in the probe order that is in the
/// container; and so one that half-closes, if any such is there.
pub proof fn law_best_helper_is_found(
    id: Seq<char>,
    world: spec_fn(RequestView) -> ReplyView,
    steps: nat,
)
    requires
        steps >= 5,
    ensures
        match detect_end(id, detect_at(id, 0), world, steps) {
            DetectStepView::Done(Some(helper)) => {
                &&& available(id, world, helper)
                &&& exists|k: int|
                    0 <= k < probe_order().len() && helper == #[trigger] probe_order()[k]
                        && forall|i: int|
                        0 <= i < k ==> !available(id, world, #[trigger] probe_order()[i])
                &&& forall|other: Helper| #[trigger]
                    available(id, world, other) && passes_half_close(other)
                        ==> passes_half_close(helper)
            },
            DetectStepView::Done(None) => forall|other: Helper| !#[trigger] available(
                id,
                world,
                other,
            ),
            DetectStepView::Wait(..) => false,
        },
{
    lemma_detect(id, world, 0, steps);
    let end = detect_end(id, detect_at(id, 0), world, steps);
    match end {
        DetectStepView::Done(Some(helper)) => {
            let k = choose|k: int|
                0 <= k < 5 && helper == #[trigger] probe_order()[k] && available(id, world, helper)
                    && forall|i: int|
                    0 <= i < k ==> !available(id, world, #[trigger] probe_order()[i]);
            assert forall|other: Helper| #[trigger]
                available(id, world, other) && passes_half_close(other)
                    implies passes_half_close(helper) by {
                law_half_closers_first(other, k, k);
                let j = choose|j: int| 0 <= j < probe_order().len() && probe_order()[j] == other;
                law_half_closers_first(other, j, k);
            }
        },
        DetectStepView::Done(None) => {
            assert forall|other: Helper| !#[trigger] available(id, world, other) by {
                law_half_closers_first(other, 0, 0);
                let j = choose|j: int| 0 <= j < probe_order().len() && probe_order()[j] == other;
                assert(!available(id, world, probe_order()[j]));
            }
        },
        DetectStepView::Wait(..) => {},
    }
}

/// What is probed for in the container is what is then run there, and it dials
/// the target: its host and its port.
pub proof fn law_helper_dials_the_target(
    id: Seq<char>,
    helper: Helper,
    host: Seq<char>,
    port: nat,
    quoted: Seq<char>,
)
    ensures
        probe_args(id, helper) == seq![
            "exec"@,
            id,
            "sh"@,
            "-c"@,
            "command -v "@ + relay_argv(helper, host, port, quoted)[0],
        ],
        ({
            let argv = relay_argv(helper, host, port, quoted);
            match helper {
                Helper::Socat => argv.len() == 3 && argv[1] == "-"@ && argv[2] == "TCP:"@ + host
                    + ":"@ + decimal(port),
                Helper::Ncat => argv.len() == 3 && argv[1] == host && argv[2] == decimal(port),
                Helper::Nc => argv.len() == 3 && argv[1] == host && argv[2] == decimal(port),
                Helper::BashDevTcp => argv.len() == 3 && argv[1] == "-c"@ && (
                "exec 3<>/dev/tcp/"@ + host + "/"@ + decimal(port) + ";"@).is_prefix_of(argv[2]),
                Helper::Python3 => argv.len() == 3 && argv[1] == "-c"@ && argv[2] == PYTHON_FRONT@
                    + quoted + ","@ + decimal(port) + PYTHON_BACK@,
            }
        }),
{
    let argv = relay_argv(helper, host, port, quoted);
    assert(probe_args(id, helper) == seq![
        "exec"@,
        id,
        "sh"@,
        "-c"@,
        "command -v "@ + argv[0],
    ]);
    match helper {
        Helper::BashDevTcp => {
            reveal_strlit(";");
            reveal_strlit("; cat <&3 & r=$!; cat >&3; exec 3>&-; wait $r");
            let front = "exec 3<>/dev/tcp/"@ + host + "/"@ + decimal(port);
            let back = "; cat <&3 & r=$!; cat >&3; exec 3>&-; wait $r"@;
            assert(back.take(1) == ";"@);
            assert(argv[2].take(front.len() as int + 1) == front + ";"@);
        },
        _ => {},
    }
}

} // verus!

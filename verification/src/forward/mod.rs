//! `forwardPorts` as a *relay*, not a publish.
//!
//! Docker never learns about these ports. We listen on `127.0.0.1:<hostPort>`
//! and, for each connection, run `docker exec -i <container> <helper>` where
//! the helper dials the target from *inside* the container's network namespace
//! and pipes bytes back over stdio. So the app sees the connection arrive from
//! `localhost`, and the target can be a sibling compose service.

pub mod helper;
pub mod port;
pub mod pump;
pub mod relay;
pub mod start;
pub mod state;
pub mod stop;

use crate::number::{decimal, to_decimal};
use crate::text::{join, joined, law_joined_holds_each, lemma_occurs_inside, occurs};
use vstd::prelude::*;

verus! {

#[derive(Debug)]
pub enum Error {
    /// No program inside the container can open a TCP connection for us.
    NoHelper(Vec<u16>),
    Io(String),
}

/// An [`Error`] as plain values.
#[verifier::ext_equal]
pub enum ErrorView {
    NoHelper(Seq<u16>),
    Io(Seq<char>),
}

impl DeepView for Error {
    type V = ErrorView;

    open spec fn deep_view(&self) -> ErrorView {
        match self {
            Error::NoHelper(ports) => ErrorView::NoHelper(ports@),
            Error::Io(why) => ErrorView::Io(why@),
        }
    }
}

/// A list of ports in words.
pub open spec fn ports_text(ports: Seq<u16>) -> Seq<char> {
    joined(ports.map_values(|p: u16| decimal(p as nat)), ", "@)
}

/// A forwarding error in words.
pub open spec fn error_text(e: ErrorView) -> Seq<char> {
    match e {
        ErrorView::NoHelper(ports) => "cannot forward "@ + ports_text(ports)
            + ": the container has none of socat, ncat, nc, bash or python3, and one of them is needed to open the connection from inside. Add socat to the image to enable forwarding."@,
        ErrorView::Io(why) => "i/o error setting up port forwarding: "@ + why,
    }
}

/// A list of ports in words.
fn list_ports(ports: &Vec<u16>) -> (r: String)
    ensures
        r@ == ports_text(ports@),
{
    let ghost show = |p: u16| decimal(p as nat);
    let mut list: Vec<String> = Vec::new();
    let mut i: usize = 0;
    while i < ports.len()
        invariant
            show == (|p: u16| decimal(p as nat)),
            i <= ports.len(),
            list.deep_view() == ports@.take(i as int).map_values(show),
        decreases ports.len() - i,
    {
        let ghost had = list.deep_view();
        let line = to_decimal(ports[i] as u64);
        list.push(line);
        assert(list.deep_view() == had.push(show(ports@[i as int])));
        i += 1;
        assert(list.deep_view() == ports@.take(i as int).map_values(show));
    }
    assert(ports@.take(i as int) == ports@);
    join(&list, ", ")
}

impl Error {
    /// The error in words.
    pub fn message(&self) -> (r: String)
        ensures
            r@ == error_text(self.deep_view()),
    {
        match self {
            Error::NoHelper(ports) => {
                let mut r: String = "cannot forward ".to_owned();
                r.append(list_ports(ports).as_str());
                r.append(
                    ": the container has none of socat, ncat, nc, bash or python3, and one of them is needed to open the connection from inside. Add socat to the image to enable forwarding.",
                );
                r
            },
            Error::Io(why) => {
                let mut r: String = "i/o error setting up port forwarding: ".to_owned();
                r.append(why.as_str());
                r
            },
        }
    }
}

/// The error of a container without a helper names every port that cannot be
/// forwarded.
pub proof fn law_error_names_the_ports(ports: Seq<u16>, i: int, why: Seq<char>)
    requires
        0 <= i < ports.len(),
    ensures
        occurs(error_text(ErrorView::NoHelper(ports)), decimal(ports[i] as nat)),
        occurs(error_text(ErrorView::Io(why)), why),
{
    let list = ports.map_values(|p: u16| decimal(p as nat));
    law_joined_holds_each(list, ", "@, i);
    assert(list[i] == decimal(ports[i] as nat));
    lemma_occurs_inside(
        "cannot forward "@,
        ports_text(ports),
        ": the container has none of socat, ncat, nc, bash or python3, and one of them is needed to open the connection from inside. Add socat to the image to enable forwarding."@,
        decimal(ports[i] as nat),
    );
    let none = Seq::<char>::empty();
    let front = "i/o error setting up port forwarding: "@;
    lemma_occurs_inside(front, why, none, why);
    assert(front + why + none == front + why);
}

} // verus!

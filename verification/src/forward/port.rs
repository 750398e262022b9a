//! Which loopback port to listen on.

use vstd::prelude::*;

verus! {

/// A port that is being tried.
#[derive(Debug, Clone, Copy, PartialEq, Eq, Structural)]
pub enum Try {
    /// The one that was asked for.
    Desired,
    /// One nearby.
    Near(u16),
    /// Whatever is free.
    Any,
}

/// How binding a port went.
#[derive(Debug)]
pub enum Bound {
    /// It is bound.
    Yes,
    /// It is taken, in the words of the system.
    InUse(String),
    /// It could not be bound, and why.
    Failed(String),
}

/// What to do about a port next.
#[derive(Debug)]
pub enum PortStep {
    /// Bind this port, then go on with how that went. Port 0 is whatever is
    /// free.
    Bind(u16, Try),
    /// The port that was bound last is the one.
    Taken,
    /// No port can be had, and why.
    Failed(String),
}

/// How far from the desired port one may lie.
pub open spec fn near_end(desired: u16) -> int {
    if desired + 64 <= 65535 {
        desired + 64
    } else {
        65535
    }
}

/// Where looking nearby begins.
pub open spec fn near_start(desired: u16) -> int {
    if desired + 1 <= 65535 {
        desired + 1
    } else {
        65535
    }
}

/// The port that a try binds.
pub open spec fn tried(desired: u16, at: Try) -> u16 {
    match at {
        Try::Desired => desired,
        Try::Near(port) => port,
        Try::Any => 0,
    }
}

/// The try after one that failed.
pub open spec fn next_try(desired: u16, at: Try) -> Try {
    match at {
        Try::Desired => Try::Near(near_start(desired) as u16),
        Try::Near(port) => if port < near_end(desired) {
            Try::Near((port + 1) as u16)
        } else {
            Try::Any
        },
        Try::Any => Try::Any,
    }
}

/// A try that belongs to a desired port.
pub open spec fn try_fits(desired: u16, at: Try) -> bool {
    at matches Try::Near(port) ==> near_start(desired) <= port <= near_end(desired)
}

/// Go on by how binding went. The desired port is given up only where it is
/// taken, one nearby for any reason; the last resort is not given up.
pub open spec fn port_next(desired: u16, at: Try, bound: Bound) -> PortStep {
    match (at, bound) {
        (_, Bound::Yes) => PortStep::Taken,
        (Try::Desired, Bound::Failed(why)) => PortStep::Failed(why),
        (Try::Any, Bound::Failed(why)) => PortStep::Failed(why),
        (Try::Any, Bound::InUse(why)) => PortStep::Failed(why),
        _ => PortStep::Bind(tried(desired, next_try(desired, at)), next_try(desired, at)),
    }
}

/// Bind a loopback port for `desired`, shifting to a nearby free port if it is
/// taken (nothing is published, so the exact host port is a preference, not a
/// contract): the first step.
pub fn pick_host_port(desired: u16) -> (r: PortStep)
    ensures
        r == PortStep::Bind(desired, Try::Desired),
{
    PortStep::Bind(desired, Try::Desired)
}

/// Go on with the choice of a port by how binding one went.
pub fn pick_host_port_on(desired: u16, at: Try, bound: Bound) -> (r: PortStep)
    requires
        try_fits(desired, at),
    ensures
        r == port_next(desired, at, bound),
        r matches PortStep::Bind(_, next) ==> try_fits(desired, next),
{
    match bound {
        Bound::Yes => PortStep::Taken,
        Bound::InUse(why) => match at {
            Try::Any => PortStep::Failed(why),
            _ => shift(desired, at),
        },
        Bound::Failed(why) => match at {
            Try::Near(_) => shift(desired, at),
            _ => PortStep::Failed(why),
        },
    }
}

/// The next port to try.
fn shift(desired: u16, at: Try) -> (r: PortStep)
    requires
        try_fits(desired, at),
    ensures
        r == PortStep::Bind(tried(desired, next_try(desired, at)), next_try(desired, at)),
        try_fits(desired, next_try(desired, at)),
{
    match at {
        Try::Desired => {
            let port: u16 = if desired < 65535 {
                desired + 1
            } else {
                65535
            };
            PortStep::Bind(port, Try::Near(port))
        },
        Try::Near(port) => {
            let end: u16 = if desired <= 65471 {
                desired + 64
            } else {
                65535
            };
            if port < end {
                PortStep::Bind(port + 1, Try::Near(port + 1))
            } else {
                PortStep::Bind(0, Try::Any)
            }
        },
        Try::Any => PortStep::Bind(0, Try::Any),
    }
}

// ---------------------------------------------------------------------------
// Laws
// ---------------------------------------------------------------------------

/// Where the choice ends on a host with the given ports free, and the others
/// taken.
pub open spec fn settled(desired: u16, free: spec_fn(u16) -> bool, at: Try) -> Try
    decreases
            match at {
                Try::Desired => 70000int,
                Try::Near(port) => 66000 - port,
                Try::Any => 0int,
            },
{
    match at {
        Try::Any => at,
        Try::Desired => if free(desired) {
            at
        } else {
            settled(desired, free, next_try(desired, at))
        },
        Try::Near(port) => if free(port) {
            at
        } else {
            settled(desired, free, next_try(desired, at))
        },
    }
}

proof fn lemma_settles_nearby(desired: u16, free: spec_fn(u16) -> bool, port: u16)
    requires
        near_start(desired) <= port <= near_end(desired),
        forall|p: u16| near_start(desired) <= p < port ==> !(#[trigger] free(p)),
    ensures
        match settled(desired, free, Try::Near(port)) {
            Try::Desired => false,
            Try::Near(p) => near_start(desired) <= p <= near_end(desired) && free(p) && forall|
                q: u16,
            |
                near_start(desired) <= q < p ==> !(#[trigger] free(q)),
            Try::Any => forall|p: u16| near_start(desired) <= p <= near_end(desired) ==> !(#[trigger] free(p)),
        },
    decreases 66000 - port,
{
    assert(settled(desired, free, Try::Any) == Try::Any);
    if !free(port) && port < near_end(desired) {
        lemma_settles_nearby(desired, free, (port + 1) as u16);
    }
}

/// A free port is taken as asked for. A taken one is shifted to the nearest
/// free one of the next 64, and to any other only where none of those is free.
pub proof fn law_port_is_nearest(desired: u16, free: spec_fn(u16) -> bool)
    ensures
        free(desired) ==> settled(desired, free, Try::Desired) == Try::Desired,
        !free(desired) ==> match settled(desired, free, Try::Desired) {
            Try::Desired => false,
            Try::Near(p) => desired < p <= desired + 64 && free(p) && forall|q: u16|
                desired < q < p ==> !(#[trigger] free(q)),
            Try::Any => forall|p: u16| desired < p <= desired + 64 ==> !(#[trigger] free(p)),
        },
{
    if !free(desired) {
        lemma_settles_nearby(desired, free, near_start(desired) as u16);
    }
}

/// The choice that is carried out is the one that ends there: each port that
/// is not free leads to the next try, and a free one is taken.
pub proof fn law_port_steps(desired: u16, free: spec_fn(u16) -> bool, at: Try, why: String)
    requires
        try_fits(desired, at),
        at != Try::Any,
    ensures
        free(tried(desired, at)) ==> port_next(desired, at, Bound::Yes) == PortStep::Taken
            && settled(desired, free, at) == at,
        !free(tried(desired, at)) ==> port_next(desired, at, Bound::InUse(why)) == PortStep::Bind(
            tried(desired, next_try(desired, at)),
            next_try(desired, at),
        ) && settled(desired, free, at) == settled(desired, free, next_try(desired, at)),
{
}

/// The port that is asked for is tried first. It is given up only where it is
/// taken: any other failure is the end. A nearby port is given up for any
/// reason; and where the system is to choose, what it says is final.
pub proof fn law_port_failures(desired: u16, port: u16, why: String)
    requires
        desired < port < desired + 64,
        port < 65535,
        desired < 65535,
    ensures
        tried(desired, Try::Desired) == desired,
        tried(desired, Try::Near(port)) == port,
        tried(desired, Try::Any) == 0,
        port_next(desired, Try::Desired, Bound::InUse(why)) == PortStep::Bind(
            (desired + 1) as u16,
            Try::Near((desired + 1) as u16),
        ),
        port_next(desired, Try::Desired, Bound::Failed(why)) == PortStep::Failed(why),
        port_next(desired, Try::Near(port), Bound::InUse(why)) == PortStep::Bind(
            (port + 1) as u16,
            Try::Near((port + 1) as u16),
        ),
        port_next(desired, Try::Near(port), Bound::Failed(why)) == PortStep::Bind(
            (port + 1) as u16,
            Try::Near((port + 1) as u16),
        ),
        port_next(desired, Try::Any, Bound::InUse(why)) == PortStep::Failed(why),
        port_next(desired, Try::Any, Bound::Failed(why)) == PortStep::Failed(why),
{
}

/// After the last nearby port the system chooses.
pub proof fn law_system_chooses_last(desired: u16, why: String)
    requires
        desired + 64 <= 65535,
    ensures
        port_next(desired, Try::Near((desired + 64) as u16), Bound::InUse(why)) == PortStep::Bind(
            0,
            Try::Any,
        ),
{
}

} // verus!

//! Moving bytes between a socket and a helper: what is read is handed on at
//! once, before anything more is read.

use vstd::prelude::*;

verus! {

/// What was just done with the stream.
#[derive(Debug)]
pub enum Event {
    /// These bytes were read; none at the end of the stream.
    Read(Vec<u8>),
    /// Reading failed.
    ReadFailed,
    /// The bytes were written and flushed, or were not.
    Written(bool),
}

/// What to do with the stream.
#[derive(Debug)]
pub enum Action {
    Read,
    /// Write and flush these bytes.
    Write(Vec<u8>),
    /// Either end hung up.
    Stop,
}

/// What comes after an event.
pub open spec fn reaction(event: Event) -> Action {
    match event {
        Event::Read(bytes) => if bytes@.len() == 0 {
            Action::Stop
        } else {
            Action::Write(bytes)
        },
        Event::ReadFailed => Action::Stop,
        Event::Written(ok) => if ok {
            Action::Read
        } else {
            Action::Stop
        },
    }
}

/// Hand every chunk on as soon as it arrives, until either end hangs up: what
/// to do after an event. The first action is to read.
///
/// A chunk is never held back for the next one: a client that keeps its write
/// side open never comes to an end, and its request must still land.
pub fn forward_stream(event: Event) -> (r: Action)
    ensures
        r == reaction(event),
{
    match event {
        Event::Read(bytes) => {
            if bytes.len() == 0 {
                Action::Stop
            } else {
                Action::Write(bytes)
            }
        },
        Event::ReadFailed => Action::Stop,
        Event::Written(ok) => {
            if ok {
                Action::Read
            } else {
                Action::Stop
            }
        },
    }
}

/// What has been written once the given chunks were read, with every write
/// going well: chunk after chunk, up to the end of the stream.
pub open spec fn delivered(chunks: Seq<Vec<u8>>) -> Seq<u8>
    decreases chunks.len(),
{
    if chunks.len() == 0 {
        seq![]
    } else {
        match reaction(Event::Read(chunks[0])) {
            Action::Write(bytes) => bytes@ + match reaction(Event::Written(true)) {
                Action::Read => delivered(chunks.skip(1)),
                _ => seq![],
            },
            _ => seq![],
        }
    }
}

/// All that was read.
pub open spec fn read_off(chunks: Seq<Vec<u8>>) -> Seq<u8>
    decreases chunks.len(),
{
    if chunks.len() == 0 {
        seq![]
    } else {
        chunks[0]@ + read_off(chunks.skip(1))
    }
}

/// Bytes arrive as they were sent: all of them, in order, and without waiting
/// for the end of the stream.
pub proof fn law_bytes_arrive_in_order(chunks: Seq<Vec<u8>>)
    requires
        forall|i: int| 0 <= i < chunks.len() ==> (#[trigger] chunks[i])@.len() > 0,
    ensures
        delivered(chunks) == read_off(chunks),
    decreases chunks.len(),
{
    if chunks.len() > 0 {
        assert forall|i: int| 0 <= i < chunks.skip(1).len() implies (#[trigger] chunks.skip(
            1,
        )[i])@.len() > 0 by {
            assert(chunks.skip(1)[i] == chunks[i + 1]);
        }
        assert(chunks[0]@.len() > 0);
        law_bytes_arrive_in_order(chunks.skip(1));
    }
}

/// A chunk is handed on as it was read; reading goes on after a write that
/// went well; and the end of the stream, a read that fails and a write that
/// fails each end the relay.
pub proof fn law_chunk_is_handed_on(bytes: Vec<u8>, ok: bool)
    ensures
        bytes@.len() > 0 ==> reaction(Event::Read(bytes)) == Action::Write(bytes),
        bytes@.len() == 0 ==> reaction(Event::Read(bytes)) is Stop,
        reaction(Event::ReadFailed) is Stop,
        reaction(Event::Written(ok)) is Read <==> ok,
        reaction(Event::Written(ok)) is Stop <==> !ok,
{
}

} // verus!

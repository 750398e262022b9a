//! What the decisions of this library ask of the world outside, and what they
//! are told.

use vstd::prelude::*;
use vstd::utf8::{decode_utf8, valid_utf8};

verus! {

/// A piece of work to be done outside, before a decision can go on.
#[derive(Debug, Clone)]
pub enum Request {
    /// Run `docker` with these arguments and take its output.
    Capture(Vec<String>),
    /// Run `docker` with these arguments on this terminal, in a directory if
    /// one is given.
    Run { args: Vec<String>, dir: Option<String> },
    /// Read a file as text.
    Read(String),
    /// Look up when a file was last modified, in whole seconds since the Unix
    /// epoch.
    Modified(String),
    /// Put a question on the terminal and read one line.
    Ask(String),
    /// Say more of why nothing runs after the stack was started.
    Diagnose,
}

/// A [`Request`] as plain values.
#[verifier::ext_equal]
pub enum RequestView {
    Capture(Seq<Seq<char>>),
    Run { args: Seq<Seq<char>>, dir: Option<Seq<char>> },
    Read(Seq<char>),
    Modified(Seq<char>),
    Ask(Seq<char>),
    Diagnose,
}

impl DeepView for Request {
    type V = RequestView;

    open spec fn deep_view(&self) -> RequestView {
        match self {
            Request::Capture(args) => RequestView::Capture(args.deep_view()),
            Request::Run { args, dir } => RequestView::Run {
                args: args.deep_view(),
                dir: dir.deep_view(),
            },
            Request::Read(path) => RequestView::Read(path@),
            Request::Modified(path) => RequestView::Modified(path@),
            Request::Ask(question) => RequestView::Ask(question@),
            Request::Diagnose => RequestView::Diagnose,
        }
    }
}

/// How an attempt to run a program ended.
#[derive(Debug, Clone)]
pub enum Outcome {
    /// There is no such program.
    Missing,
    /// It could not be run, and why.
    Failed(String),
    /// It ran to its end. What was not captured is empty.
    Exited { success: bool, stdout: Vec<u8>, stderr: Vec<u8> },
}

/// An [`Outcome`] as plain values.
#[verifier::ext_equal]
pub enum OutcomeView {
    Missing,
    Failed(Seq<char>),
    Exited { success: bool, stdout: Seq<u8>, stderr: Seq<u8> },
}

impl DeepView for Outcome {
    type V = OutcomeView;

    open spec fn deep_view(&self) -> OutcomeView {
        match self {
            Outcome::Missing => OutcomeView::Missing,
            Outcome::Failed(why) => OutcomeView::Failed(why@),
            Outcome::Exited { success, stdout, stderr } => OutcomeView::Exited {
                success: *success,
                stdout: stdout@,
                stderr: stderr@,
            },
        }
    }
}

/// The answer to a [`Request`].
#[derive(Debug)]
pub enum Reply {
    /// To [`Request::Capture`] and [`Request::Run`].
    Ran(Outcome),
    /// To [`Request::Read`] and [`Request::Diagnose`].
    Text(Option<String>),
    /// To [`Request::Modified`].
    Seconds(Option<i64>),
    /// To [`Request::Ask`]: the line, or why it could not be read.
    Line(Result<String, String>),
}

/// A [`Reply`] as plain values.
#[verifier::ext_equal]
pub enum ReplyView {
    Ran(OutcomeView),
    Text(Option<Seq<char>>),
    Seconds(Option<i64>),
    Line(Result<Seq<char>, Seq<char>>),
}

impl DeepView for Reply {
    type V = ReplyView;

    open spec fn deep_view(&self) -> ReplyView {
        match self {
            Reply::Ran(o) => ReplyView::Ran(o.deep_view()),
            Reply::Text(t) => ReplyView::Text(t.deep_view()),
            Reply::Seconds(s) => ReplyView::Seconds(*s),
            Reply::Line(l) => ReplyView::Line(seen(*l)),
        }
    }
}

/// The two sides of a result as plain values.
pub open spec fn seen<T: DeepView, E: DeepView>(r: Result<T, E>) -> Result<T::V, E::V> {
    match r {
        Ok(t) => Ok(t.deep_view()),
        Err(e) => Err(e.deep_view()),
    }
}

/// A reply of the kind that the request calls for.
pub open spec fn answers(reply: ReplyView, request: RequestView) -> bool {
    match request {
        RequestView::Capture(_) => reply is Ran,
        RequestView::Run { .. } => reply is Ran,
        RequestView::Read(_) => reply is Text,
        RequestView::Modified(_) => reply is Seconds,
        RequestView::Ask(_) => reply is Line,
        RequestView::Diagnose => reply is Text,
    }
}

/// What bytes say as UTF-8, with what is no UTF-8 put as U+FFFD.
pub uninterp spec fn utf8_lossy(bytes: Seq<u8>) -> Seq<char>;

/// `String::from_utf8_lossy`: the text that bytes hold. Valid UTF-8 is decoded
/// as it stands; what comes of other bytes goes by the name `utf8_lossy`.
#[verifier::external_body]
fn from_utf8_lossy(bytes: &Vec<u8>) -> (s: String)
    ensures
        s@ == utf8_lossy(bytes@),
        valid_utf8(bytes@) ==> s@ == decode_utf8(bytes@),
{
    String::from_utf8_lossy(bytes).into_owned()
}

/// What bytes say as text.
pub fn text_of(bytes: &Vec<u8>) -> (s: String)
    ensures
        s@ == utf8_lossy(bytes@),
        valid_utf8(bytes@) ==> s@ == decode_utf8(bytes@),
{
    from_utf8_lossy(bytes)
}

/// Copies of the given texts.
pub fn strings(list: &[&str]) -> (r: Vec<String>)
    ensures
        r.deep_view() == list.deep_view(),
{
    let mut r: Vec<String> = Vec::new();
    let mut i: usize = 0;
    while i < list.len()
        invariant
            i <= list.len(),
            r.deep_view() == list.deep_view().take(i as int),
        decreases list.len() - i,
    {
        let ghost had = r.deep_view();
        r.push(list[i].to_owned());
        assert(r.deep_view() == had.push(list.deep_view()[i as int]));
        i += 1;
        assert(r.deep_view() == list.deep_view().take(i as int));
    }
    assert(list.deep_view().take(i as int) == list.deep_view());
    r
}

} // verus!

//! The header reader: fed one line at a time, it keeps the header lines in
//! arrival order, finds the declared body length and says what to read next.

use vstd::prelude::*;
use crate::text::{
    chars_of, colon_from, parse_usize, parse_usize_chars, piece_from, starts_with_folded,
    starts_with_folded_chars, string_of, trim, trim_chars,
};

verus! {

/// Where a request stands.
#[derive(Clone, Copy, Debug, PartialEq, Eq, Structural)]
pub enum Phase {
    /// Header lines are still coming.
    Headers,
    /// The headers are over and a body of the declared length is awaited.
    Body,
    /// The whole request has been read.
    Complete,
    /// A header could not be read; the request is abandoned.
    Failed,
}

/// What the connection has to do next.
#[derive(Clone, Copy, Debug, PartialEq, Eq, Structural)]
pub enum Action {
    /// Read one more line.
    ReadLine,
    /// Read exactly this many bytes of body.
    ReadBody(usize),
    /// Send the answer.
    Respond,
}

/// Why a request could not be read.
#[derive(Clone, Copy, Debug, PartialEq, Eq, Structural)]
pub enum RequestError {
    /// A `Content-Length` value that is not a non-negative integer.
    MalformedHeader,
}

/// The state of a reader: the trimmed header lines so far, the declared body
/// length, the body and the phase.
pub struct ReaderView {
    pub lines: Seq<Seq<char>>,
    pub content_length: usize,
    pub body: Seq<u8>,
    pub phase: Phase,
}

/// The prefix that marks a `Content-Length` header, in lower case.
pub open spec fn length_prefix() -> Seq<char> {
    seq!['c', 'o', 'n', 't', 'e', 'n', 't', '-', 'l', 'e', 'n', 'g', 't', 'h', ':', ' ']
}

/// Whether the trimmed line `t` is a `Content-Length` header, in any case.
pub open spec fn is_length_line(t: Seq<char>) -> bool {
    starts_with_folded(t, length_prefix())
}

/// The value of the `Content-Length` header `t`: the text after its first
/// colon, up to the next colon, trimmed and read as a number.
pub open spec fn length_value(t: Seq<char>) -> Option<usize> {
    parse_usize(trim(t.subrange(15, colon_from(t, 15))))
}

/// A reader that has seen nothing yet.
pub open spec fn initial_view() -> ReaderView {
    ReaderView {
        lines: Seq::empty(),
        content_length: 0,
        body: Seq::empty(),
        phase: Phase::Headers,
    }
}

/// What follows the blank line that ends the headers: a body read when a
/// request has header lines and a positive declared length, else the answer.
pub open spec fn end_of_headers(v: ReaderView) -> Action {
    if v.lines.len() > 0 && v.content_length > 0 {
        Action::ReadBody(v.content_length)
    } else {
        Action::Respond
    }
}

/// One header-phase step on the line `raw` as read, end of line included.
pub open spec fn step_line(v: ReaderView, raw: Seq<char>) -> Result<(ReaderView, Action), RequestError> {
    let t = trim(raw);
    if t.len() == 0 {
        let a = end_of_headers(v);
        Ok((ReaderView { phase: if a is Respond { Phase::Complete } else { Phase::Body }, ..v }, a))
    } else if is_length_line(t) {
        match length_value(t) {
            Some(n) => Ok(
                (ReaderView { lines: v.lines.push(t), content_length: n, ..v }, Action::ReadLine),
            ),
            None => Err(RequestError::MalformedHeader),
        }
    } else {
        Ok((ReaderView { lines: v.lines.push(t), ..v }, Action::ReadLine))
    }
}

/// The state after the body `b` has been read.
pub open spec fn step_body(v: ReaderView, b: Seq<u8>) -> ReaderView {
    ReaderView { body: b, phase: Phase::Complete, ..v }
}

/// The steps of the lines `raws`, one after another, from `v`.
pub open spec fn feed_lines(v: ReaderView, raws: Seq<Seq<char>>) -> Result<(ReaderView, Action), RequestError>
    decreases raws.len(),
{
    if raws.len() == 0 {
        Ok((v, Action::ReadLine))
    } else {
        match feed_lines(v, raws.drop_last()) {
            Ok(p) => step_line(p.0, raws.last()),
            Err(e) => Err(e),
        }
    }
}

/// The states that a reader can be in.
pub open spec fn well_formed(v: ReaderView) -> bool {
    &&& v.lines.len() == 0 ==> v.content_length == 0
    &&& v.phase is Headers ==> v.body.len() == 0
    &&& v.phase is Body ==> v.body.len() == 0 && v.lines.len() > 0 && v.content_length > 0
    &&& v.phase is Complete ==> v.body.len() == end_of_headers_length(v)
}

/// The number of body bytes that a request with state `v` carries.
pub open spec fn end_of_headers_length(v: ReaderView) -> nat {
    if v.lines.len() > 0 {
        v.content_length as nat
    } else {
        0
    }
}

/// Reads one request, line by line and then its body.
pub struct RequestReader {
    lines: Vec<String>,
    content_length: usize,
    body: Vec<u8>,
    phase: Phase,
}

impl View for RequestReader {
    type V = ReaderView;

    closed spec fn view(&self) -> ReaderView {
        ReaderView {
            lines: self.lines@.map_values(|l: String| l@),
            content_length: self.content_length,
            body: self.body@,
            phase: self.phase,
        }
    }
}

fn is_length_line_chars(t: &Vec<char>) -> (r: bool)
    ensures
        r == is_length_line(t@),
{
    let p: Vec<char> = vec!['c', 'o', 'n', 't', 'e', 'n', 't', '-', 'l', 'e', 'n', 'g', 't', 'h', ':', ' '];
    assert(p@ =~= length_prefix());
    starts_with_folded_chars(t, &p)
}

impl RequestReader {
    /// A reader at the start of a request.
    pub fn new() -> (r: RequestReader)
        ensures
            r@ == initial_view(),
    {
        let r = RequestReader { lines: Vec::new(), content_length: 0, body: Vec::new(), phase: Phase::Headers };
        assert(r@.lines =~= Seq::<Seq<char>>::empty());
        r
    }

    /// Takes the line `line` as read, end of line included; an empty `line`
    /// stands for the end of the stream and ends the headers as a blank
    /// line does.
    pub fn feed_line(&mut self, line: &str) -> (r: Result<Action, RequestError>)
        requires
            old(self)@.phase is Headers,
        ensures
            match step_line(old(self)@, line@) {
                Ok(p) => r == Ok::<Action, RequestError>(p.1) && final(self)@ == p.0,
                Err(e) => r == Err::<Action, RequestError>(e) && final(self)@ == (ReaderView {
                    phase: Phase::Failed,
                    ..old(self)@
                }),
            },
    {
        let raw = chars_of(line);
        let t = trim_chars(&raw);
        if t.len() == 0 {
            if self.lines.len() > 0 && self.content_length > 0 {
                self.phase = Phase::Body;
                Ok(Action::ReadBody(self.content_length))
            } else {
                self.phase = Phase::Complete;
                Ok(Action::Respond)
            }
        } else {
            if is_length_line_chars(&t) {
                let field = piece_from(&t, 15);
                match parse_usize_chars(&trim_chars(&field)) {
                    Some(n) => {
                        self.content_length = n;
                    },
                    None => {
                        self.phase = Phase::Failed;
                        return Err(RequestError::MalformedHeader);
                    },
                }
            }
            let ghost before = self.lines@;
            self.lines.push(string_of(&t));
            assert(self.lines@.map_values(|l: String| l@) =~= before.map_values(|l: String| l@).push(t@));
            Ok(Action::ReadLine)
        }
    }

    /// The trimmed header lines read so far, in arrival order.
    pub fn lines(&self) -> (r: &Vec<String>)
        ensures
            r@.map_values(|l: String| l@) == self@.lines,
    {
        &self.lines
    }

    /// The declared body length: that of the last `Content-Length` header,
    /// or 0.
    pub fn content_length(&self) -> (r: usize)
        ensures
            r == self@.content_length,
    {
        self.content_length
    }

    /// The body read so far.
    pub fn body(&self) -> (r: &Vec<u8>)
        ensures
            r@ == self@.body,
    {
        &self.body
    }

    pub fn phase(&self) -> (r: Phase)
        ensures
            r == self@.phase,
    {
        self.phase
    }

    /// Whether no header line has been read: the request is empty.
    pub fn is_empty_request(&self) -> (r: bool)
        ensures
            r == (self@.lines.len() == 0),
    {
        self.lines.len() == 0
    }

    /// Takes the body, of the length that the headers declared.
    pub fn feed_body(&mut self, body: Vec<u8>)
        requires
            old(self)@.phase is Body,
            body@.len() == old(self)@.content_length,
        ensures
            final(self)@ == step_body(old(self)@, body@),
    {
        self.body = body;
        self.phase = Phase::Complete;
    }
}

} // verus!

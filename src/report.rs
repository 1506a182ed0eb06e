//! What is shown of a request on the console, and the answer it gets.

use vstd::prelude::*;
use vstd::utf8::{decode_utf8, valid_utf8};
use crate::reader::{Phase, ReaderView, RequestReader};

verus! {

/// What `format!("{:?}", s)` writes for the string `s`: `s` quoted, with its
/// special characters escaped.
pub uninterp spec fn debug_text(s: Seq<char>) -> Seq<char>;

/// What `String::from_utf8_lossy` makes of the bytes `b`.
pub uninterp spec fn lossy_utf8(b: Seq<u8>) -> Seq<char>;

/// Relies on `<str as Debug>::fmt`: the quoted, escaped form depends on the
/// characters alone.
#[verifier::external_body]
fn debug_quoted(s: &str) -> (r: String)
    ensures
        r@ == debug_text(s@),
{
    format!("{:?}", s)
}

/// Relies on `String::from_utf8_lossy`: valid UTF-8 is decoded unchanged,
/// and the result depends on the bytes alone.
#[verifier::external_body]
fn lossy_string(b: &[u8]) -> (r: String)
    ensures
        r@ == lossy_utf8(b@),
        valid_utf8(b@) ==> r@ == decode_utf8(b@),
{
    String::from_utf8_lossy(b).into_owned()
}

/// The answer sent to every request.
pub open spec fn ok_response() -> Seq<u8> {
    seq![72u8, 84, 84, 80, 47, 49, 46, 49, 32, 50, 48, 48, 32, 79, 75, 13, 10, 13, 10]
}

/// The bytes of `HTTP/1.1 200 OK\r\n\r\n`.
pub fn response() -> (r: Vec<u8>)
    ensures
        r@ == ok_response(),
{
    let r: Vec<u8> = vec![72u8, 84, 84, 80, 47, 49, 46, 49, 32, 50, 48, 48, 32, 79, 75, 13, 10, 13, 10];
    assert(r@ =~= ok_response());
    r
}

pub open spec fn request_label() -> Seq<char> {
    seq!['R', 'e', 'q', 'u', 'e', 's', 't', ':', ' ']
}

pub open spec fn empty_request_text() -> Seq<char> {
    seq!['<', 'e', 'm', 'p', 't', 'y', ' ', 'r', 'e', 'q', 'u', 'e', 's', 't', '>', '\n']
}

pub open spec fn body_label() -> Seq<char> {
    seq!['B', 'o', 'd', 'y', ':', '\n']
}

/// The entries of the multi-line debug form of a list of strings, given
/// their quoted forms: one line each, indented by four spaces, ending in a
/// comma.
pub open spec fn pretty_entries(quoted: Seq<Seq<char>>) -> Seq<char>
    decreases quoted.len(),
{
    if quoted.len() == 0 {
        Seq::empty()
    } else {
        pretty_entries(quoted.drop_last()) + seq![' ', ' ', ' ', ' '] + quoted.last() + seq![',', '\n']
    }
}

/// The console text of the header lines `lines`, whose quoted forms are
/// `quoted`: a placeholder when there are none; else every line in arrival
/// order when `verbose`, only the first line when not.
pub open spec fn header_layout(lines: Seq<Seq<char>>, quoted: Seq<Seq<char>>, verbose: bool) -> Seq<char> {
    if lines.len() == 0 {
        empty_request_text()
    } else if verbose {
        request_label() + seq!['[', '\n'] + pretty_entries(quoted) + seq![']', '\n', '\n']
    } else {
        request_label() + lines[0] + seq!['\n']
    }
}

/// The console text of a body section with the text `body`, if any.
pub open spec fn body_layout(body: Option<Seq<char>>) -> Seq<char> {
    match body {
        Some(t) => body_label() + t + seq!['\n', '\n'],
        None => Seq::empty(),
    }
}

/// The quoted form of each line.
pub open spec fn quoted_lines(lines: Seq<Seq<char>>) -> Seq<Seq<char>> {
    lines.map_values(|l: Seq<char>| debug_text(l))
}

/// The console text of the headers of the request `v`.
pub open spec fn header_text(v: ReaderView, verbose: bool) -> Seq<char> {
    header_layout(v.lines, quoted_lines(v.lines), verbose)
}

/// The body text shown for the request `v`: present only when a positive
/// length was declared, the body decoded lossily.
pub open spec fn shown_body(v: ReaderView) -> Option<Seq<char>> {
    if v.lines.len() > 0 && v.content_length > 0 {
        Some(lossy_utf8(v.body))
    } else {
        None
    }
}

/// The console text of the body of the request `v`.
pub open spec fn body_text(v: ReaderView) -> Seq<char> {
    body_layout(shown_body(v))
}

/// All the console text of the request `v`.
pub open spec fn console_text(v: ReaderView, verbose: bool) -> Seq<char> {
    header_text(v, verbose) + body_text(v)
}

pub open spec fn opt_view(body: Option<&str>) -> Option<Seq<char>> {
    match body {
        Some(t) => Some(t@),
        None => None,
    }
}

/// Lays out the console text of the header lines `lines`, whose quoted forms
/// are `quoted`, and of the body text `body`, if any.
pub fn layout_console(lines: &Vec<String>, quoted: &Vec<String>, verbose: bool, body: Option<&str>) -> (r: String)
    ensures
        r@ == header_layout(lines@.map_values(|l: String| l@), quoted@.map_values(|l: String| l@), verbose)
            + body_layout(opt_view(body)),
{
    let ghost ls = lines@.map_values(|l: String| l@);
    let ghost qs = quoted@.map_values(|l: String| l@);
    let mut out: String;
    if lines.len() == 0 {
        proof {
            reveal_strlit("<empty request>\n");
        }
        out = "<empty request>\n".to_owned();
        assert(out@ =~= empty_request_text());
    } else {
        proof {
            reveal_strlit("Request: ");
            reveal_strlit("[\n");
            reveal_strlit("]\n\n");
            reveal_strlit("\n");
        }
        out = "Request: ".to_owned();
        if verbose {
            out.append("[\n");
            let ghost start = out@;
            let mut i: usize = 0;
            assert(qs.subrange(0, 0) =~= Seq::<Seq<char>>::empty());
            assert(out@ =~= start + pretty_entries(qs.subrange(0, 0)));
            while i < quoted.len()
                invariant
                    i <= quoted.len() == qs.len(),
                    quoted@.map_values(|l: String| l@) == qs,
                    start == request_label() + seq!['[', '\n'],
                    out@ == start + pretty_entries(qs.subrange(0, i as int)),
                decreases quoted.len() - i,
            {
                let ghost before = out@;
                proof {
                    reveal_strlit("    ");
                    reveal_strlit(",\n");
                }
                out.append("    ");
                out.append(quoted[i].as_str());
                out.append(",\n");
                let ghost next = qs.subrange(0, i + 1);
                assert(next.drop_last() =~= qs.subrange(0, i as int));
                assert(next.last() == quoted@[i as int]@);
                assert(out@ =~= before + seq![' ', ' ', ' ', ' '] + next.last() + seq![',', '\n']);
                i = i + 1;
                assert(out@ =~= start + pretty_entries(qs.subrange(0, i as int)));
            }
            assert(qs.subrange(0, i as int) =~= qs);
            out.append("]\n\n");
        } else {
            assert(ls[0] == lines@[0]@);
            out.append(lines[0].as_str());
            out.append("\n");
        }
    }
    assert(out@ =~= header_layout(ls, qs, verbose));
    match body {
        Some(t) => {
            proof {
                reveal_strlit("Body:\n");
                reveal_strlit("\n\n");
            }
            let ghost before = out@;
            out.append("Body:\n");
            out.append(t);
            out.append("\n\n");
            assert(out@ =~= before + body_layout(opt_view(body)));
        },
        None => {
            assert(out@ =~= out@ + body_layout(opt_view(body)));
        },
    }
    out
}

impl RequestReader {
    /// The console text of the request read, every header line when
    /// `verbose`, else the first.
    pub fn render(&self, verbose: bool) -> (r: String)
        requires
            self@.phase is Complete,
        ensures
            r@ == console_text(self@, verbose),
    {
        let lines = self.lines();
        let ghost ls = self@.lines;
        let mut quoted: Vec<String> = Vec::new();
        let mut i: usize = 0;
        while i < lines.len()
            invariant
                i <= lines.len(),
                quoted.len() == i,
                lines@.map_values(|l: String| l@) == ls,
                quoted@.map_values(|l: String| l@) == quoted_lines(ls).subrange(0, i as int),
            decreases lines.len() - i,
        {
            let q = debug_quoted(lines[i].as_str());
            let ghost qv = q@;
            quoted.push(q);
            assert(ls[i as int] == lines@[i as int]@);
            assert(quoted@[i as int]@ == qv);
            assert(quoted_lines(ls)[i as int] == debug_text(ls[i as int]));
            i = i + 1;
            assert(quoted@.map_values(|l: String| l@) =~= quoted_lines(ls).subrange(0, i as int));
        }
        assert(quoted_lines(ls).subrange(0, i as int) =~= quoted_lines(ls));
        if lines.len() > 0 && self.content_length() > 0 {
            let text = lossy_string(self.body().as_slice());
            layout_console(lines, &quoted, verbose, Some(text.as_str()))
        } else {
            layout_console(lines, &quoted, verbose, None)
        }
    }
}

} // verus!

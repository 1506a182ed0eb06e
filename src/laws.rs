//! What holds of every request: the header lines keep their order, the body
//! read is the one declared, every request is answered, and the
//! `Content-Length` header is found in any letter case.

use vstd::prelude::*;
use crate::reader::{
    end_of_headers, feed_lines, initial_view, is_length_line, length_value, step_body, step_line,
    well_formed, Action, Phase, ReaderView, RequestError,
};
use crate::report::{
    body_label, body_text, console_text, empty_request_text, header_text, lossy_utf8,
    pretty_entries, quoted_lines, request_label,
};
use crate::text::{
    colon_from, fold_ascii, lemma_colon_from_bounds, is_digit, is_white_space, parse_usize, trim, trim_end, trim_start,
    unsigned_digits,
};
use vstd::utf8::char_u32_cast;

verus! {

/// Lines that can stand before the blank line of a request: each holds more
/// than white space, and each `Content-Length` among them has a readable
/// value.
pub open spec fn header_run(raws: Seq<Seq<char>>) -> bool {
    forall|i: int|
        0 <= i < raws.len() ==> trim(#[trigger] raws[i]).len() > 0 && (is_length_line(trim(raws[i]))
            ==> length_value(trim(raws[i])) is Some)
}

/// Every line of `raws`, trimmed.
pub open spec fn trimmed_all(raws: Seq<Seq<char>>) -> Seq<Seq<char>> {
    raws.map_values(|r: Seq<char>| trim(r))
}

/// The value of the last readable `Content-Length` line of `ts`, or 0.
pub open spec fn last_length(ts: Seq<Seq<char>>) -> usize
    decreases ts.len(),
{
    if ts.len() == 0 {
        0
    } else if is_length_line(ts.last()) && length_value(ts.last()) is Some {
        length_value(ts.last())->Some_0
    } else {
        last_length(ts.drop_last())
    }
}

/// The state after the header lines `raws`.
pub open spec fn after_headers(raws: Seq<Seq<char>>) -> ReaderView {
    ReaderView {
        lines: trimmed_all(raws),
        content_length: last_length(trimmed_all(raws)),
        body: Seq::empty(),
        phase: Phase::Headers,
    }
}

/// Every state that the steps lead to from a well-formed state is well formed.
pub proof fn lemma_steps_keep_well_formed(v: ReaderView, raw: Seq<char>, b: Seq<u8>)
    requires
        well_formed(v),
    ensures
        v.phase is Headers ==> (step_line(v, raw) matches Ok(p) ==> well_formed(p.0)),
        v.phase is Body && b.len() == v.content_length ==> well_formed(step_body(v, b)),
{
}

/// Header lines are kept trimmed and in the order they arrive, and the
/// declared length is that of the last `Content-Length` line.
pub proof fn lemma_headers_kept_in_order(raws: Seq<Seq<char>>)
    requires
        header_run(raws),
    ensures
        feed_lines(initial_view(), raws) == Ok::<(ReaderView, Action), RequestError>(
            (after_headers(raws), Action::ReadLine),
        ),
    decreases raws.len(),
{
    if raws.len() == 0 {
        assert(after_headers(raws).lines =~= Seq::<Seq<char>>::empty());
    } else {
        let front = raws.drop_last();
        assert forall|i: int| 0 <= i < front.len() implies trim(#[trigger] front[i]).len() > 0 && (
        is_length_line(trim(front[i])) ==> length_value(trim(front[i])) is Some) by {
            assert(front[i] == raws[i]);
        }
        lemma_headers_kept_in_order(front);
        assert(trimmed_all(raws).drop_last() =~= trimmed_all(front));
        assert(trimmed_all(raws) =~= trimmed_all(front).push(trim(raws.last())));
        assert(raws.last() == raws[raws.len() - 1]);
    }
}

/// A line that declares an unreadable length ends the request with an error.
pub proof fn lemma_malformed_length_fails(raws: Seq<Seq<char>>, bad: Seq<char>)
    requires
        header_run(raws),
        is_length_line(trim(bad)),
        length_value(trim(bad)) is None,
    ensures
        feed_lines(initial_view(), raws.push(bad)) == Err::<(ReaderView, Action), RequestError>(
            RequestError::MalformedHeader,
        ),
{
    lemma_headers_kept_in_order(raws);
    assert(raws.push(bad).drop_last() =~= raws);
    assert(trim(bad).len() >= 16);
}

proof fn lemma_no_length_line(ts: Seq<Seq<char>>)
    requires
        forall|i: int| 0 <= i < ts.len() ==> !is_length_line(#[trigger] ts[i]),
    ensures
        last_length(ts) == 0,
    decreases ts.len(),
{
    if ts.len() > 0 {
        assert(ts.last() == ts[ts.len() - 1]);
        let front = ts.drop_last();
        assert forall|i: int| 0 <= i < front.len() implies !is_length_line(#[trigger] front[i]) by {
            assert(front[i] == ts[i]);
        }
        lemma_no_length_line(front);
    }
}

/// A request without `Content-Length` reads no body and shows no body.
pub proof fn lemma_no_length_no_body(raws: Seq<Seq<char>>, end: Seq<char>, verbose: bool)
    requires
        header_run(raws),
        forall|i: int| 0 <= i < raws.len() ==> !is_length_line(trim(#[trigger] raws[i])),
        trim(end).len() == 0,
    ensures
        feed_lines(initial_view(), raws.push(end)) == Ok::<(ReaderView, Action), RequestError>(
            (ReaderView { phase: Phase::Complete, ..after_headers(raws) }, Action::Respond),
        ),
        after_headers(raws).content_length == 0,
        body_text(after_headers(raws)) == Seq::<char>::empty(),
        console_text(after_headers(raws), verbose) == header_text(after_headers(raws), verbose),
{
    lemma_headers_kept_in_order(raws);
    let ts = trimmed_all(raws);
    assert forall|i: int| 0 <= i < ts.len() implies !is_length_line(#[trigger] ts[i]) by {
        assert(ts[i] == trim(raws[i]));
    }
    lemma_no_length_line(ts);
    assert(raws.push(end).drop_last() =~= raws);
    assert(console_text(after_headers(raws), verbose) =~= header_text(after_headers(raws), verbose));
}

/// A request that declares a positive length `n` asks for exactly `n` body
/// bytes, wherever the header stands, and shows those bytes decoded.
pub proof fn lemma_declared_length_read(raws: Seq<Seq<char>>, end: Seq<char>, body: Seq<u8>)
    requires
        header_run(raws),
        last_length(trimmed_all(raws)) > 0,
        trim(end).len() == 0,
        body.len() == last_length(trimmed_all(raws)),
    ensures
        feed_lines(initial_view(), raws.push(end)) == Ok::<(ReaderView, Action), RequestError>(
            (
                ReaderView { phase: Phase::Body, ..after_headers(raws) },
                Action::ReadBody(last_length(trimmed_all(raws))),
            ),
        ),
        step_body(ReaderView { phase: Phase::Body, ..after_headers(raws) }, body).body == body,
        body_text(step_body(ReaderView { phase: Phase::Body, ..after_headers(raws) }, body))
            == body_label() + lossy_utf8(body) + seq!['\n', '\n'],
{
    lemma_headers_kept_in_order(raws);
    assert(raws.push(end).drop_last() =~= raws);
    assert(trimmed_all(raws).len() > 0);
}

/// With header lines, the console shows all of them in arrival order when
/// verbose, and exactly the first one when not.
pub proof fn lemma_console_shows_arrival_order(raws: Seq<Seq<char>>)
    requires
        header_run(raws),
        raws.len() > 0,
    ensures
        header_text(after_headers(raws), true) == request_label() + seq!['[', '\n']
            + pretty_entries(quoted_lines(trimmed_all(raws))) + seq![']', '\n', '\n'],
        header_text(after_headers(raws), false) == request_label() + trim(raws[0]) + seq!['\n'],
{
}

/// The blank line that ends the headers always leads on to the answer:
/// directly, or after the declared body.
pub proof fn lemma_blank_line_leads_to_answer(v: ReaderView, end: Seq<char>, body: Seq<u8>)
    requires
        well_formed(v),
        v.phase is Headers,
        trim(end).len() == 0,
    ensures
        step_line(v, end) matches Ok(p) && (p.1 == end_of_headers(v)) && (
        (p.1 is Respond && p.0.phase is Complete) || (p.1 == Action::ReadBody(v.content_length)
            && p.0.phase is Body && (body.len() == v.content_length ==> step_body(
            p.0,
            body,
        ).phase is Complete))),
{
}

/// A request with nothing before its blank line is answered at once and
/// shown as the empty-request placeholder.
pub proof fn lemma_empty_request_answered(end: Seq<char>, verbose: bool)
    requires
        trim(end).len() == 0,
    ensures
        feed_lines(initial_view(), seq![end]) == Ok::<(ReaderView, Action), RequestError>(
            (ReaderView { phase: Phase::Complete, ..initial_view() }, Action::Respond),
        ),
        console_text(ReaderView { phase: Phase::Complete, ..initial_view() }, verbose)
            == empty_request_text(),
{
    let none = Seq::<Seq<char>>::empty();
    assert(seq![end].drop_last() =~= none);
    assert(seq![end].last() == end);
    assert(feed_lines(initial_view(), none) == Ok::<(ReaderView, Action), RequestError>(
        (initial_view(), Action::ReadLine),
    ));
    assert(console_text(ReaderView { phase: Phase::Complete, ..initial_view() }, verbose)
        =~= empty_request_text());
}


/// Whether `a` and `b` are the same text up to the case of ASCII letters.
pub open spec fn same_folded(a: Seq<char>, b: Seq<char>) -> bool {
    a.len() == b.len() && forall|i: int|
        0 <= i < a.len() ==> fold_ascii(#[trigger] a[i]) == fold_ascii(b[i])
}

pub open spec fn is_ascii_letter(c: char) -> bool {
    ('A' <= c && c <= 'Z') || ('a' <= c && c <= 'z')
}

proof fn lemma_fold_keeps_non_letters(x: char, y: char)
    requires
        fold_ascii(x) == fold_ascii(y),
        !is_ascii_letter(x) || !is_ascii_letter(y),
    ensures
        x == y,
{
    char_u32_cast(x, x as u32);
    char_u32_cast(y, y as u32);
}

proof fn lemma_same_folded_rest(a: Seq<char>, b: Seq<char>)
    requires
        same_folded(a, b),
        a.len() > 0,
    ensures
        same_folded(a.drop_first(), b.drop_first()),
        same_folded(a.drop_last(), b.drop_last()),
{
    assert forall|i: int| 0 <= i < a.len() - 1 implies fold_ascii(#[trigger] a.drop_first()[i])
        == fold_ascii(b.drop_first()[i]) by {
        assert(fold_ascii(a[i + 1]) == fold_ascii(b[i + 1]));
    }
    assert forall|i: int| 0 <= i < a.len() - 1 implies fold_ascii(#[trigger] a.drop_last()[i])
        == fold_ascii(b.drop_last()[i]) by {
        assert(fold_ascii(a[i]) == fold_ascii(b[i]));
    }
}

proof fn lemma_same_white_space(x: char, y: char)
    requires
        fold_ascii(x) == fold_ascii(y),
    ensures
        is_white_space(x) == is_white_space(y),
{
    if is_white_space(x) || is_white_space(y) {
        lemma_fold_keeps_non_letters(x, y);
    }
}

proof fn lemma_trim_start_same(a: Seq<char>, b: Seq<char>)
    requires
        same_folded(a, b),
    ensures
        same_folded(trim_start(a), trim_start(b)),
    decreases a.len(),
{
    if a.len() > 0 {
        lemma_same_white_space(a[0], b[0]);
        if is_white_space(a[0]) {
            lemma_same_folded_rest(a, b);
            lemma_trim_start_same(a.drop_first(), b.drop_first());
        }
    }
}

proof fn lemma_trim_end_same(a: Seq<char>, b: Seq<char>)
    requires
        same_folded(a, b),
    ensures
        same_folded(trim_end(a), trim_end(b)),
    decreases a.len(),
{
    if a.len() > 0 {
        lemma_same_white_space(a.last(), b.last());
        if is_white_space(a.last()) {
            lemma_same_folded_rest(a, b);
            lemma_trim_end_same(a.drop_last(), b.drop_last());
        }
    }
}

proof fn lemma_colon_same(a: Seq<char>, b: Seq<char>, i: int)
    requires
        same_folded(a, b),
        0 <= i <= a.len(),
    ensures
        colon_from(a, i) == colon_from(b, i),
    decreases a.len() - i,
{
    if i < a.len() {
        assert(fold_ascii(a[i]) == fold_ascii(b[i]));
        if a[i] == ':' || b[i] == ':' {
            lemma_fold_keeps_non_letters(a[i], b[i]);
        } else {
            lemma_colon_same(a, b, i + 1);
        }
    }
}

proof fn lemma_digits_same(a: Seq<char>, b: Seq<char>)
    requires
        same_folded(a, b),
        forall|i: int| 0 <= i < a.len() ==> is_digit(#[trigger] a[i]),
    ensures
        a == b,
{
    assert forall|i: int| 0 <= i < a.len() implies a[i] == b[i] by {
        assert(is_digit(a[i]));
        assert(fold_ascii(a[i]) == fold_ascii(b[i]));
        lemma_fold_keeps_non_letters(a[i], b[i]);
    }
    assert(a =~= b);
}

proof fn lemma_parse_same(a: Seq<char>, b: Seq<char>)
    requires
        same_folded(a, b),
    ensures
        parse_usize(a) == parse_usize(b),
{
    let da = unsigned_digits(a);
    let db = unsigned_digits(b);
    if a.len() > 0 {
        assert(fold_ascii(a[0]) == fold_ascii(b[0]));
        if a[0] == '+' || b[0] == '+' {
            lemma_fold_keeps_non_letters(a[0], b[0]);
            lemma_same_folded_rest(a, b);
        }
    }
    assert(same_folded(da, db));
    if forall|i: int| 0 <= i < da.len() ==> is_digit(#[trigger] da[i]) {
        lemma_digits_same(da, db);
    } else if forall|i: int| 0 <= i < db.len() ==> is_digit(#[trigger] db[i]) {
        assert forall|i: int| 0 <= i < db.len() implies fold_ascii(#[trigger] db[i]) == fold_ascii(
            da[i],
        ) by {
            assert(fold_ascii(da[i]) == fold_ascii(db[i]));
        }
        lemma_digits_same(db, da);
    }
}

/// `Content-Length` is found, and its value read, whatever the case of its
/// letters: two lines that differ only in the case of ASCII letters lead to
/// the same action, the same declared length and the same error.
pub proof fn lemma_length_header_case_insensitive(v: ReaderView, a: Seq<char>, b: Seq<char>)
    requires
        same_folded(a, b),
    ensures
        is_length_line(trim(a)) == is_length_line(trim(b)),
        step_line(v, a) is Ok == step_line(v, b) is Ok,
        step_line(v, a) matches Ok(pa) ==> (step_line(v, b) matches Ok(pb) && pa.1 == pb.1
            && pa.0.content_length == pb.0.content_length && pa.0.phase == pb.0.phase),
        step_line(v, a) matches Err(ea) ==> (step_line(v, b) matches Err(eb) && ea == eb),
{
    lemma_trim_start_same(a, b);
    lemma_trim_end_same(trim_start(a), trim_start(b));
    let ta = trim(a);
    let tb = trim(b);
    if ta.len() >= 16 {
        lemma_colon_same(ta, tb, 15);
        lemma_colon_from_bounds(ta, 15);
        let fa = ta.subrange(15, colon_from(ta, 15));
        let fb = tb.subrange(15, colon_from(tb, 15));
        assert forall|i: int| 0 <= i < fa.len() implies fold_ascii(#[trigger] fa[i]) == fold_ascii(
            fb[i],
        ) by {
            assert(fa[i] == ta[i + 15] && fb[i] == tb[i + 15]);
            assert(fold_ascii(ta[i + 15]) == fold_ascii(tb[i + 15]));
        }
        lemma_trim_start_same(fa, fb);
        lemma_trim_end_same(trim_start(fa), trim_start(fb));
        lemma_parse_same(trim(fa), trim(fb));
    }
    if is_length_line(ta) {
        assert(ta.len() >= 16);
    }
    if is_length_line(tb) {
        assert(tb.len() >= 16);
    }
}

} // verus!

//! What holds of every scan: how the token sequence is delimited, where its
//! spans lie, and what follows an error.

use vstd::prelude::*;
use crate::tokenizer::grammar::{
    blanks_end, content_start, is_break, lemma_blanks_end, lemma_content_start, lemma_line_end,
    lemma_next_line, lemma_plain_end, lemma_trimmed_end, lemma_word_end, line_end, next_line,
    plain_end, word_end, LF, PERCENT,
};
use crate::tokenizer::render::{rendered_lines, stream_end_line, stream_start_line};
use crate::tokenizer::scanner::{
    directive_token, lemma_step_progress, rank, rest, scan, step, SpanToken, State,
};

verus! {

/// `StreamEnd` is the last token of `t` and stands nowhere else.
pub open spec fn closes_once(t: Seq<SpanToken>) -> bool {
    &&& t.len() > 0
    &&& forall|i: int| 0 <= i < t.len() ==> (#[trigger] t[i] == SpanToken::StreamEnd <==> i == t.len() - 1)
}

/// `StreamStart` is the first token of `t` and stands nowhere else.
pub open spec fn opens_once(t: Seq<SpanToken>) -> bool {
    &&& t.len() > 0
    &&& forall|i: int| 0 <= i < t.len() ==> (#[trigger] t[i] == SpanToken::StreamStart <==> i == 0)
}

/// Every span of `t` lies inside `[lo, hi]`, start before end.
pub open spec fn spans_within(t: Seq<SpanToken>, lo: int, hi: int) -> bool {
    forall|i: int| 0 <= i < t.len() ==> (#[trigger] t[i]).within(lo, hi)
}

/// Every span of `t` starts at or after the end of each span before it.
pub open spec fn spans_ordered(t: Seq<SpanToken>) -> bool {
    forall|i: int, j: int|
        0 <= i < j < t.len() && (#[trigger] t[i]).has_span() && (#[trigger] t[j]).has_span()
            ==> t[i].span_end() <= t[j].span_start()
}

/// An `Error` token is followed by exactly one more token.
pub open spec fn error_is_last_but_one(t: Seq<SpanToken>) -> bool {
    forall|i: int| 0 <= i < t.len() && (#[trigger] t[i]) is Error ==> i == t.len() - 2
}

/// No token of `t` is `StreamStart`.
pub open spec fn never_opens(t: Seq<SpanToken>) -> bool {
    forall|i: int| 0 <= i < t.len() ==> #[trigger] t[i] != SpanToken::StreamStart
}

/// The line's end is the same from every offset of the line.
proof fn lemma_same_line(s: Seq<u8>, i: int, x: int)
    requires
        0 <= i <= x <= line_end(s, i),
    ensures
        line_end(s, x) == line_end(s, i),
    decreases x - i,
{
    if i < x {
        lemma_line_end(s, i);
        lemma_same_line(s, i + 1, x);
    }
}

/// Words, runs of blanks and runs of plain text end within their line.
proof fn lemma_runs_in_line(s: Seq<u8>, i: int)
    requires
        0 <= i <= s.len(),
    ensures
        word_end(s, i) <= line_end(s, i),
        blanks_end(s, i) <= line_end(s, i),
        plain_end(s, i, false) <= line_end(s, i),
        plain_end(s, i, true) <= line_end(s, i),
    decreases s.len() - i,
{
    if i < s.len() && !is_break(s[i]) {
        lemma_runs_in_line(s, i + 1);
        lemma_line_end(s, i + 1);
    }
}

/// A directive's parameters lie between its `%` and the start of the next
/// line.
proof fn lemma_directive_span(s: Seq<u8>, p: int)
    requires
        0 <= p < s.len() <= usize::MAX,
        s[p] == PERCENT,
    ensures
        directive_token(s, p + 1).has_span(),
        p < directive_token(s, p + 1).span_start() <= directive_token(s, p + 1).span_end()
            <= next_line(s, p),
        next_line(s, p) <= s.len(),
{
    let w = word_end(s, p + 1);
    let q = blanks_end(s, w);
    let x = plain_end(s, q, false);
    lemma_word_end(s, p + 1);
    lemma_blanks_end(s, w);
    lemma_plain_end(s, q, false);
    lemma_trimmed_end(s, q, x);
    lemma_line_end(s, p);
    lemma_line_end(s, p + 1);
    lemma_runs_in_line(s, p + 1);
    lemma_same_line(s, p + 1, w);
    lemma_runs_in_line(s, w);
    lemma_same_line(s, p + 1, q);
    lemma_runs_in_line(s, q);
    lemma_same_line(s, p + 1, x);
    lemma_next_line(s, p);
}

/// What one transition emits: spans between the old and the new read
/// offset, in order; `StreamStart` only out of the first state; `StreamEnd`
/// only on entering the last; an error only last, on entering `Error`.
proof fn lemma_step_tokens(state: State, s: Seq<u8>, pos: int)
    requires
        0 <= pos <= s.len() <= usize::MAX,
        state != State::StreamEnd,
    ensures
        ({
            let n = step(state, s, pos);
            &&& spans_within(n.tokens, pos, n.pos)
            &&& spans_ordered(n.tokens)
            &&& n.state != State::StreamStart
            &&& n.state == State::StreamEnd ==> n.tokens =~= seq![SpanToken::StreamEnd]
            &&& n.state != State::StreamEnd ==> forall|i: int|
                0 <= i < n.tokens.len() ==> #[trigger] n.tokens[i] != SpanToken::StreamEnd
            &&& state == State::StreamStart ==> n.tokens =~= seq![SpanToken::StreamStart]
            &&& state != State::StreamStart ==> never_opens(n.tokens)
            &&& forall|i: int|
                0 <= i < n.tokens.len() && (#[trigger] n.tokens[i]) is Error ==> n.state
                    == State::Error && i == n.tokens.len() - 1
        }),
{
    lemma_step_progress(state, s, pos);
    match state {
        State::DirectiveOrDocument => {
            let p = content_start(s, pos, false);
            lemma_content_start(s, pos, false);
            if p < s.len() && s[p] == PERCENT {
                lemma_directive_span(s, p);
                lemma_content_start(s, next_line(s, p), false);
            }
        },
        State::DocumentContent => {
            let a = content_start(s, pos, true);
            lemma_content_start(s, pos, true);
            if a < s.len() {
                lemma_plain_end(s, a, true);
                lemma_trimmed_end(s, a, plain_end(s, a, true));
            }
        },
        _ => {},
    }
}

/// The laws of the token sequence, for the machine started in any state.
proof fn lemma_rest(state: State, s: Seq<u8>, pos: int)
    requires
        0 <= pos <= s.len() <= usize::MAX,
    ensures
        ({
            let t = rest(state, s, pos);
            &&& state == State::StreamEnd ==> t.len() == 0
            &&& state == State::Error ==> t =~= seq![SpanToken::StreamEnd]
            &&& state != State::StreamEnd ==> closes_once(t)
            &&& state == State::StreamStart ==> opens_once(t) && t.len() >= 2
            &&& state != State::StreamStart ==> never_opens(t)
            &&& spans_within(t, pos, s.len() as int)
            &&& spans_ordered(t)
            &&& error_is_last_but_one(t)
        }),
    decreases rank(state), s.len() - pos,
{
    if state != State::StreamEnd {
        let n = step(state, s, pos);
        let tail = rest(n.state, s, n.pos);
        let t = rest(state, s, pos);
        let k = n.tokens.len() as int;
        lemma_step_progress(state, s, pos);
        lemma_step_tokens(state, s, pos);
        lemma_rest(n.state, s, n.pos);
        assert(t == n.tokens + tail);
        assert forall|i: int| 0 <= i < t.len() implies (#[trigger] t[i] == if i < k {
            n.tokens[i]
        } else {
            tail[i - k]
        }) by {}
        assert(spans_within(t, pos, s.len() as int));
        assert(spans_ordered(t));
        assert(error_is_last_but_one(t));
        assert(closes_once(t));
    }
}

/// Every scan opens with `StreamStart` and closes with `StreamEnd`, and
/// holds each of the two exactly once.
pub proof fn law_stream_delimited(s: Seq<u8>)
    requires
        s.len() <= usize::MAX,
    ensures
        scan(s).len() >= 2,
        scan(s).first() == SpanToken::StreamStart,
        scan(s).last() == SpanToken::StreamEnd,
        opens_once(scan(s)),
        closes_once(scan(s)),
{
    lemma_rest(State::StreamStart, s, 0);
}

/// Only `StreamStart` is written as `+STR` and only `StreamEnd` as `-STR`.
pub proof fn lemma_delimiter_lines(t: SpanToken, s: Seq<u8>)
    ensures
        t.rendered(s) == stream_start_line() <==> t == SpanToken::StreamStart,
        t.rendered(s) == stream_end_line() <==> t == SpanToken::StreamEnd,
{
    let line = t.rendered(s);
    match t {
        SpanToken::Scalar(a, e) => {
            assert(line[1] == 0x56u8);
            assert(line[0] == 0x2bu8);
        },
        SpanToken::Directive(kind, a, e) => {
            assert(line[0] == 0x23u8);
        },
        SpanToken::Error(..) => {
            assert(line.len() == 3);
        },
        SpanToken::StreamStart => {
            assert(line[0] == 0x2bu8);
        },
        SpanToken::StreamEnd => {
            assert(line[0] == 0x2du8);
        },
    }
}

/// In the written form of every scan the first line is `+STR`, the last is
/// `-STR`, and neither line stands anywhere else.
pub proof fn law_rendering_delimited(s: Seq<u8>)
    requires
        s.len() <= usize::MAX,
    ensures
        forall|i: int|
            0 <= i < scan(s).len() ==> ((#[trigger] scan(s)[i]).rendered(s) == stream_start_line()
                <==> i == 0),
        forall|i: int|
            0 <= i < scan(s).len() ==> ((#[trigger] scan(s)[i]).rendered(s) == stream_end_line()
                <==> i == scan(s).len() - 1),
{
    law_stream_delimited(s);
    assert forall|i: int| 0 <= i < scan(s).len() implies ((#[trigger] scan(s)[i]).rendered(s)
        == stream_start_line() <==> i == 0) && (scan(s)[i].rendered(s) == stream_end_line() <==> i
        == scan(s).len() - 1) by {
        lemma_delimiter_lines(scan(s)[i], s);
    }
}

/// The written form of a sequence of tokens begins with the line of the
/// first token and ends with the line of the last.
proof fn lemma_rendered_ends(t: Seq<SpanToken>, s: Seq<u8>)
    requires
        t.len() > 0,
    ensures
        t.first().rendered(s).is_prefix_of(rendered_lines(t, s)),
        t.last().rendered(s).is_suffix_of(rendered_lines(t, s)),
    decreases t.len(),
{
    let all = rendered_lines(t, s);
    let last = t.last().rendered(s);
    if t.len() == 1 {
        assert(all =~= all.subrange(0, all.len() as int));
    } else {
        let front = rendered_lines(t.drop_last(), s);
        let first = t.first().rendered(s);
        lemma_rendered_ends(t.drop_last(), s);
        assert(t.drop_last().first() == t.first());
        assert(all =~= front + seq![LF] + last);
        assert(first =~= all.subrange(0, first.len() as int)) by {
            assert(first =~= front.subrange(0, first.len() as int));
        }
        assert(last =~= all.subrange(all.len() - last.len(), all.len() as int));
    }
}

/// The written form of every scan begins with `+STR` and ends with `-STR`.
pub proof fn law_rendering_framed(s: Seq<u8>)
    requires
        s.len() <= usize::MAX,
    ensures
        stream_start_line().is_prefix_of(rendered_lines(scan(s), s)),
        stream_end_line().is_suffix_of(rendered_lines(scan(s), s)),
{
    law_stream_delimited(s);
    lemma_rendered_ends(scan(s), s);
}

/// Every scalar, and every other span, lies inside the input with its start
/// at or before its end.
pub proof fn law_spans_in_bounds(s: Seq<u8>)
    requires
        s.len() <= usize::MAX,
    ensures
        spans_within(scan(s), 0, s.len() as int),
        forall|i: int|
            0 <= i < scan(s).len() ==> match #[trigger] scan(s)[i] {
                SpanToken::Scalar(a, e) => a <= e <= s.len(),
                _ => true,
            },
{
    lemma_rest(State::StreamStart, s, 0);
    assert forall|i: int| 0 <= i < scan(s).len() implies match #[trigger] scan(s)[i] {
        SpanToken::Scalar(a, e) => a <= e <= s.len(),
        _ => true,
    } by {
        assert(scan(s)[i].within(0, s.len() as int));
    }
}

/// Scanning is a function of the input: equal inputs give equal token
/// sequences.
pub proof fn law_scan_deterministic(a: Seq<u8>, b: Seq<u8>)
    requires
        a =~= b,
    ensures
        scan(a) == scan(b),
{
}

/// Spans never overlap and never go back: each starts at or after the end
/// of every span emitted before it.
pub proof fn law_spans_monotonic(s: Seq<u8>)
    requires
        s.len() <= usize::MAX,
    ensures
        spans_ordered(scan(s)),
{
    lemma_rest(State::StreamStart, s, 0);
}

/// After an `Error` token comes `StreamEnd` and nothing else.
pub proof fn law_error_ends_stream(s: Seq<u8>)
    requires
        s.len() <= usize::MAX,
    ensures
        forall|i: int|
            0 <= i < scan(s).len() && (#[trigger] scan(s)[i]) is Error ==> i + 2 == scan(s).len()
                && scan(s)[i + 1] == SpanToken::StreamEnd,
{
    lemma_rest(State::StreamStart, s, 0);
}

} // verus!

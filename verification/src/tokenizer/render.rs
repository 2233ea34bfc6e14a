//! The textual form of tokens: one line per token, as bytes.

use vstd::prelude::*;
use vstd::string::StringSliceAdditionalSpecFns;
use crate::tokenizer::grammar::LF;
use crate::tokenizer::laws::law_spans_in_bounds;
use crate::tokenizer::scanner::{scan, DirectiveKind, Scanner, SpanToken};

verus! {

/// `+STR`
pub open spec fn stream_start_line() -> Seq<u8> {
    seq![0x2bu8, 0x53u8, 0x54u8, 0x52u8]
}

/// `-STR`
pub open spec fn stream_end_line() -> Seq<u8> {
    seq![0x2du8, 0x53u8, 0x54u8, 0x52u8]
}

/// `ERR`
pub open spec fn error_line() -> Seq<u8> {
    seq![0x45u8, 0x52u8, 0x52u8]
}

/// `+VAL ` and a space, before a scalar's bytes.
pub open spec fn scalar_label() -> Seq<u8> {
    seq![0x2bu8, 0x56u8, 0x41u8, 0x4cu8, 0x20u8]
}

/// What stands before a directive's parameters: `#YAML `, `#TAG ` or, for a
/// reserved directive, `#DIR `.
pub open spec fn directive_label(kind: DirectiveKind) -> Seq<u8> {
    match kind {
        DirectiveKind::Version => seq![0x23u8, 0x59u8, 0x41u8, 0x4du8, 0x4cu8, 0x20u8],
        DirectiveKind::Tag => seq![0x23u8, 0x54u8, 0x41u8, 0x47u8, 0x20u8],
        DirectiveKind::Reserved => seq![0x23u8, 0x44u8, 0x49u8, 0x52u8, 0x20u8],
    }
}

/// The lines of `t` over the input `s`, joined by line feeds.
pub open spec fn rendered_lines(t: Seq<SpanToken>, s: Seq<u8>) -> Seq<u8>
    decreases t.len(),
{
    if t.len() == 0 {
        Seq::empty()
    } else if t.len() == 1 {
        t[0].rendered(s)
    } else {
        rendered_lines(t.drop_last(), s) + seq![LF] + t.last().rendered(s)
    }
}

impl SpanToken {
    /// Whether the token's range, if it has one to read, lies inside an
    /// input of `len` bytes.
    pub open spec fn readable(self, len: int) -> bool {
        match self {
            SpanToken::Scalar(a, e) => a <= e <= len,
            SpanToken::Directive(_, a, e) => a <= e <= len,
            _ => true,
        }
    }

    /// The token's line over the input `s`.
    pub open spec fn rendered(self, s: Seq<u8>) -> Seq<u8> {
        match self {
            SpanToken::StreamStart => stream_start_line(),
            SpanToken::StreamEnd => stream_end_line(),
            SpanToken::Error(..) => error_line(),
            SpanToken::Scalar(a, e) => scalar_label() + s.subrange(a as int, e as int),
            SpanToken::Directive(kind, a, e) => directive_label(kind) + s.subrange(
                a as int,
                e as int,
            ),
        }
    }

    /// Writes the token's line over `input`; `None` where its range does not
    /// lie inside `input`.
    pub fn render(&self, input: &[u8]) -> (r: Option<Vec<u8>>)
        ensures
            self.readable(input@.len() as int) <==> r is Some,
            r matches Some(line) ==> line@ == self.rendered(input@),
    {
        match *self {
            SpanToken::StreamStart => Some(vec![0x2bu8, 0x53u8, 0x54u8, 0x52u8]),
            SpanToken::StreamEnd => Some(vec![0x2du8, 0x53u8, 0x54u8, 0x52u8]),
            SpanToken::Error(..) => Some(vec![0x45u8, 0x52u8, 0x52u8]),
            SpanToken::Scalar(a, e) => {
                if a <= e && e <= input.len() {
                    let mut line = vec![0x2bu8, 0x56u8, 0x41u8, 0x4cu8, 0x20u8];
                    push_range(&mut line, input, a, e);
                    Some(line)
                } else {
                    None
                }
            },
            SpanToken::Directive(kind, a, e) => {
                if a <= e && e <= input.len() {
                    let mut line = match kind {
                        DirectiveKind::Version => vec![0x23u8, 0x59u8, 0x41u8, 0x4du8, 0x4cu8, 0x20u8],
                        DirectiveKind::Tag => vec![0x23u8, 0x54u8, 0x41u8, 0x47u8, 0x20u8],
                        DirectiveKind::Reserved => vec![0x23u8, 0x44u8, 0x49u8, 0x52u8, 0x20u8],
                    };
                    push_range(&mut line, input, a, e);
                    Some(line)
                } else {
                    None
                }
            },
        }
    }
}

/// Appends the bytes `[a, e)` of `src` to `out`.
pub fn push_range(out: &mut Vec<u8>, src: &[u8], a: usize, e: usize)
    requires
        a <= e <= src@.len(),
    ensures
        final(out)@ == old(out)@ + src@.subrange(a as int, e as int),
{
    let mut i: usize = a;
    while i < e
        invariant
            a <= i <= e <= src@.len(),
            out@ == old(out)@ + src@.subrange(a as int, i as int),
        decreases e - i,
    {
        out.push(src[i]);
        i += 1;
        assert(out@ =~= old(out)@ + src@.subrange(a as int, i as int));
    }
    assert(out@ =~= old(out)@ + src@.subrange(a as int, e as int));
}

/// Scans `input` to its end and writes every token's line, joined by line
/// feeds.
pub fn render_scan(input: &str) -> (out: Vec<u8>)
    ensures
        out@ == rendered_lines(scan(input.spec_bytes()), input.spec_bytes()),
{
    let bytes = input.as_bytes();
    let mut it = Scanner::from_str_reader(input);
    let tokens = it.collect_tokens();
    let mut out: Vec<u8> = Vec::with_capacity(bytes.len());
    proof {
        law_spans_in_bounds(bytes@);
    }
    let mut i: usize = 0;
    while i < tokens.len()
        invariant
            i <= tokens@.len(),
            tokens@ == scan(bytes@),
            forall|k: int| 0 <= k < tokens@.len() ==> (#[trigger] tokens@[k]).readable(bytes@.len() as int),
            out@ == rendered_lines(tokens@.take(i as int), bytes@),
        decreases tokens@.len() - i,
    {
        if i > 0 {
            out.push(LF);
        }
        let token = tokens[i];
        assert(token.readable(bytes@.len() as int));
        if let Some(line) = token.render(bytes) {
            push_range(&mut out, line.as_slice(), 0, line.len());
            proof {
                let t = tokens@.take(i as int + 1);
                assert(t.drop_last() =~= tokens@.take(i as int));
                assert(t.last() == token);
                assert(line@.subrange(0, line@.len() as int) =~= line@);
            }
        }
        i += 1;
    }
    assert(tokens@.take(i as int) =~= tokens@);
    out
}

} // verus!

//! The token model and the scanner's state machine.

use std::collections::VecDeque;
use vstd::prelude::*;
use vstd::string::StringSliceAdditionalSpecFns;
use crate::error::YamlError;
use crate::tokenizer::grammar::{
    blanks_end, classify_directive, content_start, directive_kind, document_start_at,
    is_document_start, lemma_blanks_end, lemma_content_start, lemma_next_line, lemma_plain_end,
    line_starts_at, next_line, plain_end, scan_blanks, scan_plain, scan_word, starts_line,
    trim_end, trimmed_end, word_end, HASH, PERCENT,
};
use crate::tokenizer::iterator::StrIterator;
use crate::tokenizer::reader::{moved, wf, Reader, StrReader};

verus! {

/// Which directive a `%` line declares.
#[derive(Copy, Clone, Debug, PartialEq, Eq, Structural)]
pub enum DirectiveKind {
    /// `%YAML`
    Version,
    /// `%TAG`
    Tag,
    /// Any other name: reserved for future use.
    Reserved,
}

/// A lexical unit. Offsets are byte offsets into the scanned input.
#[derive(Copy, Clone, Debug, PartialEq, Eq, Structural)]
pub enum SpanToken {
    /// A plain scalar occupying the half-open byte range `[start, end)`.
    Scalar(usize, usize),
    /// A directive line; the range covers its parameters.
    Directive(DirectiveKind, usize, usize),
    /// A terminal diagnostic at the given offset.
    Error(YamlError, usize),
    /// The first token of every scan.
    StreamStart,
    /// The last token of every scan.
    StreamEnd,
}

impl SpanToken {
    /// Whether the token points into the input.
    pub open spec fn has_span(self) -> bool {
        match self {
            SpanToken::Scalar(..) | SpanToken::Directive(..) | SpanToken::Error(..) => true,
            _ => false,
        }
    }

    /// Where the token starts in the input; an error stands at one offset.
    pub open spec fn span_start(self) -> int {
        match self {
            SpanToken::Scalar(a, _) => a as int,
            SpanToken::Directive(_, a, _) => a as int,
            SpanToken::Error(_, at) => at as int,
            _ => 0,
        }
    }

    /// Where the token ends in the input.
    pub open spec fn span_end(self) -> int {
        match self {
            SpanToken::Scalar(_, e) => e as int,
            SpanToken::Directive(_, _, e) => e as int,
            SpanToken::Error(_, at) => at as int,
            _ => 0,
        }
    }

    /// A token with a span lies inside `[lo, hi]`, start before end.
    pub open spec fn within(self, lo: int, hi: int) -> bool {
        self.has_span() ==> lo <= self.span_start() <= self.span_end() <= hi
    }
}

/// The grammar rule that governs the scanner's next transition.
#[derive(Copy, Clone, Debug, PartialEq, Eq, Structural)]
pub enum State {
    /// Nothing has been read yet.
    StreamStart,
    /// After the stream preamble: a directive or a document may follow.
    DirectiveOrDocument,
    /// Inside a document, scanning its content.
    DocumentContent,
    /// A lexical error was reported; only the end of the stream is left.
    Error,
    /// The scan is over.
    StreamEnd,
}

/// What one transition of the scanner reported to its driver.
#[derive(Copy, Clone, Debug, PartialEq, Eq, Structural)]
pub enum Control {
    /// A transition was made; there may be more.
    Continue,
    /// The scanner had already reached the end of the stream.
    Eof,
    /// The transition found a lexical error and queued a token for it.
    Error(YamlError),
}

/// The outcome of one transition: the next state, the next read offset and
/// the tokens emitted on the way, in order.
pub struct Step {
    pub state: State,
    pub pos: int,
    pub tokens: Seq<SpanToken>,
}

/// Where the stream preamble ends: after leading blanks and, if a comment
/// follows them, after that comment's line.
pub open spec fn preamble_end(s: Seq<u8>, pos: int) -> int {
    let j = blanks_end(s, pos);
    if 0 <= j < s.len() && s[j] == HASH {
        next_line(s, j)
    } else {
        j
    }
}

/// The transition out of `StreamStart`.
pub open spec fn stream_start_step(s: Seq<u8>, pos: int) -> Step {
    Step {
        state: State::DirectiveOrDocument,
        pos: preamble_end(s, pos),
        tokens: seq![SpanToken::StreamStart],
    }
}

/// The token for the directive whose name starts at `name`, right after
/// the `%`: the kind is read off the name, and the range covers the
/// parameters up to a comment or the end of the line, trailing blanks cut off.
pub open spec fn directive_token(s: Seq<u8>, name: int) -> SpanToken {
    let w = word_end(s, name);
    let q = blanks_end(s, w);
    SpanToken::Directive(
        directive_kind(s.subrange(name, w)),
        q as usize,
        trimmed_end(s, q, plain_end(s, q, false)) as usize,
    )
}

/// The transition out of `DirectiveOrDocument`: blank and comment lines are
/// passed over; a line that starts with `%` is a directive and must be
/// followed by the marker `---`; anything else is content.
pub open spec fn directive_step(s: Seq<u8>, pos: int) -> Step {
    let p = content_start(s, pos, false);
    if 0 <= p < s.len() && s[p] == PERCENT && starts_line(s, p) {
        let r = content_start(s, next_line(s, p), false);
        if is_document_start(s, r) {
            Step {
                state: State::DocumentContent,
                pos: r + 3,
                tokens: seq![directive_token(s, p + 1)],
            }
        } else {
            Step {
                state: State::Error,
                pos: r,
                tokens: seq![
                    directive_token(s, p + 1),
                    SpanToken::Error(YamlError::MissingDocumentMarker, r as usize),
                ],
            }
        }
    } else {
        Step { state: State::DocumentContent, pos: p, tokens: seq![] }
    }
}

/// The transition out of `DocumentContent`.
pub open spec fn content_step(s: Seq<u8>, pos: int) -> Step {
    let a = content_start(s, pos, true);
    if 0 <= a < s.len() {
        let e = plain_end(s, a, true);
        Step {
            state: State::DocumentContent,
            pos: e,
            tokens: seq![SpanToken::Scalar(a as usize, trimmed_end(s, a, e) as usize)],
        }
    } else {
        Step { state: State::StreamEnd, pos: a, tokens: seq![SpanToken::StreamEnd] }
    }
}

/// One transition of the state machine from `state` with the cursor at `pos`.
pub open spec fn step(state: State, s: Seq<u8>, pos: int) -> Step {
    match state {
        State::StreamStart => stream_start_step(s, pos),
        State::DirectiveOrDocument => directive_step(s, pos),
        State::DocumentContent => content_step(s, pos),
        State::Error => Step { state: State::StreamEnd, pos, tokens: seq![SpanToken::StreamEnd] },
        State::StreamEnd => Step { state: State::StreamEnd, pos, tokens: seq![] },
    }
}

/// How far a state is from the end of the stream.
pub open spec fn rank(state: State) -> nat {
    match state {
        State::StreamStart => 4,
        State::DirectiveOrDocument => 3,
        State::DocumentContent => 2,
        State::Error => 1,
        State::StreamEnd => 0,
    }
}

/// Every token the machine still emits from `state` with the cursor at `pos`.
pub open spec fn rest(state: State, s: Seq<u8>, pos: int) -> Seq<SpanToken>
    decreases rank(state), s.len() - pos,
    via rest_decreases
{
    if state == State::StreamEnd {
        Seq::empty()
    } else {
        let n = step(state, s, pos);
        n.tokens + rest(n.state, s, n.pos)
    }
}

#[via_fn]
proof fn rest_decreases(state: State, s: Seq<u8>, pos: int) {
    if state == State::DocumentContent {
        let a = content_start(s, pos, true);
        if 0 <= a < s.len() {
            if 0 <= pos {
                lemma_content_start(s, pos, true);
            } else {
                assert(blanks_end(s, pos) == pos);
            }
            lemma_plain_end(s, a, true);
        }
    }
}

/// The whole token sequence of the input `s`.
pub open spec fn scan(s: Seq<u8>) -> Seq<SpanToken> {
    rest(State::StreamStart, s, 0)
}

/// What the transitions made for one pull add up to: from `state` with the
/// cursor at `pos`, transitions are made until one emits tokens or the
/// machine stands in `StreamEnd`. The tokens are those of that last
/// transition; they are none exactly when `StreamEnd` was reached without
/// one.
pub open spec fn pull(state: State, s: Seq<u8>, pos: int) -> Step
    decreases rank(state), s.len() - pos,
    via pull_decreases
{
    if state == State::StreamEnd {
        Step { state, pos, tokens: Seq::empty() }
    } else {
        let n = step(state, s, pos);
        if n.tokens.len() > 0 {
            n
        } else {
            pull(n.state, s, n.pos)
        }
    }
}

#[via_fn]
proof fn pull_decreases(state: State, s: Seq<u8>, pos: int) {
}

/// A transition from a state other than `StreamEnd` keeps the cursor inside
/// the input and never moves it back. It emits a token or moves to a state
/// nearer the end; and where it stays in its state, it moves the cursor
/// forward. So no run of transitions goes on for ever.
pub proof fn lemma_step_progress(state: State, s: Seq<u8>, pos: int)
    requires
        0 <= pos <= s.len(),
        state != State::StreamEnd,
    ensures
        pos <= step(state, s, pos).pos <= s.len(),
        step(state, s, pos).tokens.len() > 0 || rank(step(state, s, pos).state) < rank(state),
        rank(step(state, s, pos).state) < rank(state) || (rank(step(state, s, pos).state) == rank(
            state,
        ) && pos < step(state, s, pos).pos),
{
    lemma_blanks_end(s, pos);
    lemma_next_line(s, blanks_end(s, pos));
    lemma_content_start(s, pos, false);
    lemma_content_start(s, pos, true);
    let p = content_start(s, pos, false);
    lemma_next_line(s, p);
    lemma_content_start(s, next_line(s, p), false);
    lemma_plain_end(s, content_start(s, pos, true), true);
}

/// Reads the directive whose name starts at `name` into its token.
pub fn read_directive(s: &[u8], name: usize) -> (token: SpanToken)
    requires
        name <= s@.len(),
    ensures
        token == directive_token(s@, name as int),
{
    let w = scan_word(s, name);
    let q = scan_blanks(s, w);
    let e = trim_end(s, q, scan_plain(s, q, false));
    SpanToken::Directive(classify_directive(s, name, w), q, e)
}

/// The scanner: the current state, the tokens emitted but not yet handed
/// out, and whether the end of the stream has been observed.
#[derive(Clone)]
pub struct Scanner {
    state: State,
    tokens: VecDeque<SpanToken>,
    eof: bool,
}

impl Default for State {
    fn default() -> (r: Self)
        ensures
            r == State::StreamStart,
    {
        State::StreamStart
    }
}

impl Default for Scanner {
    fn default() -> (r: Self)
        ensures
            r.current() == State::StreamStart,
            r.queue() == Seq::<SpanToken>::empty(),
            !r.at_end(),
    {
        Scanner { state: State::StreamStart, tokens: VecDeque::new(), eof: false }
    }
}

impl Scanner {
    /// The current state.
    pub closed spec fn current(&self) -> State {
        self.state
    }

    /// The tokens emitted and not yet handed out, oldest first.
    pub closed spec fn queue(&self) -> Seq<SpanToken> {
        self.tokens@
    }

    /// Whether the driver has recorded the end of the stream.
    pub closed spec fn at_end(&self) -> bool {
        self.eof
    }

    /// `after` is this scanner once it has made the transition `n`.
    pub open spec fn stepped(&self, after: &Self, n: Step) -> bool {
        &&& after.current() == n.state
        &&& after.queue() == self.queue() + n.tokens
        &&& after.at_end() == self.at_end()
    }

    /// A lazy token sequence over `string`: nothing is read or queued until
    /// the first pull.
    pub fn from_str_reader(string: &str) -> (it: StrIterator<'_>)
        ensures
            it.wf(),
            it.input() == string.spec_bytes(),
            it.offset() == 0,
            it.current() == State::StreamStart,
            it.queued() == Seq::<SpanToken>::empty(),
            !it.at_end(),
            it.remaining() == scan(string.spec_bytes()),
    {
        StrIterator::new(Scanner::default(), StrReader::new(string))
    }

    /// The current state.
    pub fn state(&self) -> (r: State)
        ensures
            r == self.current(),
    {
        self.state
    }

    /// Whether the driver has recorded the end of the stream.
    pub fn is_eof(&self) -> (r: bool)
        ensures
            r == self.at_end(),
    {
        self.eof
    }

    /// Records whether the end of the stream has been reached. The driver
    /// does so when a transition reports `Eof`.
    pub fn set_eof(&mut self, eof: bool)
        ensures
            final(self).at_end() == eof,
            final(self).current() == old(self).current(),
            final(self).queue() == old(self).queue(),
    {
        self.eof = eof;
    }

    /// Queues the token that closes the stream.
    pub fn emit_end_of_stream(&mut self)
        ensures
            final(self).queue() == old(self).queue().push(SpanToken::StreamEnd),
            final(self).current() == old(self).current(),
            final(self).at_end() == old(self).at_end(),
    {
        self.tokens.push_back(SpanToken::StreamEnd);
    }

    /// Takes the oldest queued token, if there is one.
    pub fn pop_token(&mut self) -> (r: Option<SpanToken>)
        ensures
            final(self).current() == old(self).current(),
            final(self).at_end() == old(self).at_end(),
            r == if old(self).queue().len() > 0 {
                Some(old(self).queue()[0])
            } else {
                None
            },
            final(self).queue() == if old(self).queue().len() > 0 {
                old(self).queue().skip(1)
            } else {
                old(self).queue()
            },
    {
        let r = self.tokens.pop_front();
        assert(old(self).tokens@.len() > 0 ==> old(self).tokens@.skip(1) =~= self.tokens@);
        r
    }

    /// Makes one transition: reads what the current state asks for, queues
    /// the tokens it emits and moves to the next state. In the state
    /// `StreamEnd` it reports `Eof` and changes nothing. The end flag is
    /// the driver's to set: no transition touches it.
    pub fn next_state<R: Reader>(&mut self, reader: &mut R) -> (r: Control)
        requires
            wf(old(reader)),
        ensures
            wf(final(reader)),
            moved(
                old(reader),
                final(reader),
                step(old(self).current(), old(reader).input(), old(reader).offset()).pos,
            ),
            old(self).stepped(
                final(self),
                step(old(self).current(), old(reader).input(), old(reader).offset()),
            ),
            old(self).current() == State::StreamEnd ==> final(self).queue() == old(self).queue()
                && final(reader).offset() == old(reader).offset(),
            r == match old(self).current() {
                State::StreamEnd => Control::Eof,
                State::DirectiveOrDocument => if final(self).current() == State::Error {
                    Control::Error(YamlError::MissingDocumentMarker)
                } else {
                    Control::Continue
                },
                _ => Control::Continue,
            },
    {
        match self.state {
            State::StreamStart => {
                self.read_start_stream(reader);
                Control::Continue
            },
            State::DirectiveOrDocument => self.read_directive_or_document(reader),
            State::DocumentContent => {
                self.read_document_content(reader);
                Control::Continue
            },
            State::Error => {
                self.emit_end_of_stream();
                self.state = State::StreamEnd;
                assert(self.tokens@ =~= old(self).tokens@ + seq![SpanToken::StreamEnd]);
                Control::Continue
            },
            State::StreamEnd => {
                assert(self.tokens@ =~= old(self).tokens@ + Seq::<SpanToken>::empty());
                Control::Eof
            },
        }
    }

    /// The transition out of `StreamStart`: passes over the preamble and
    /// queues `StreamStart`.
    pub fn read_start_stream<T: Reader>(&mut self, reader: &mut T)
        requires
            wf(old(reader)),
        ensures
            wf(final(reader)),
            moved(
                old(reader),
                final(reader),
                stream_start_step(old(reader).input(), old(reader).offset()).pos,
            ),
            old(self).stepped(
                final(self),
                stream_start_step(old(reader).input(), old(reader).offset()),
            ),
    {
        self.try_read_comments(reader);
        self.state = State::DirectiveOrDocument;
        self.tokens.push_back(SpanToken::StreamStart);
        assert(self.tokens@ =~= old(self).tokens@ + seq![SpanToken::StreamStart]);
    }

    /// Passes over leading blanks and, if a comment follows them, over that
    /// comment's line.
    pub fn try_read_comments<T: Reader>(&self, reader: &mut T)
        requires
            wf(old(reader)),
        ensures
            wf(final(reader)),
            moved(
                old(reader),
                final(reader),
                preamble_end(old(reader).input(), old(reader).offset()),
            ),
    {
        reader.skip_space_tab();
        if reader.peek_byte_is(HASH) {
            reader.read_line();
        }
    }

    /// The transition out of `DirectiveOrDocument`: either a directive line,
    /// which must be followed by the marker `---`, or the start of content.
    pub fn read_directive_or_document<R: Reader>(&mut self, reader: &mut R) -> (r: Control)
        requires
            wf(old(reader)),
        ensures
            wf(final(reader)),
            moved(
                old(reader),
                final(reader),
                directive_step(old(reader).input(), old(reader).offset()).pos,
            ),
            old(self).stepped(
                final(self),
                directive_step(old(reader).input(), old(reader).offset()),
            ),
            r == if final(self).current() == State::Error {
                Control::Error(YamlError::MissingDocumentMarker)
            } else {
                Control::Continue
            },
    {
        reader.skip_to_content(false);
        if !(reader.peek_byte_is(PERCENT) && line_starts_at(reader.bytes(), reader.pos())) {
            self.state = State::DocumentContent;
            assert(self.tokens@ =~= old(self).tokens@ + Seq::<SpanToken>::empty());
            return Control::Continue;
        }
        reader.advance();
        let directive = read_directive(reader.bytes(), reader.pos());
        self.tokens.push_back(directive);
        reader.read_line();
        reader.skip_to_content(false);
        let r = reader.pos();
        if document_start_at(reader.bytes(), r) {
            reader.consume_bytes(3);
            self.state = State::DocumentContent;
            assert(self.tokens@ =~= old(self).tokens@ + seq![directive]);
            Control::Continue
        } else {
            self.tokens.push_back(SpanToken::Error(YamlError::MissingDocumentMarker, r));
            self.state = State::Error;
            assert(self.tokens@ =~= old(self).tokens@ + seq![
                directive,
                SpanToken::Error(YamlError::MissingDocumentMarker, r),
            ]);
            Control::Error(YamlError::MissingDocumentMarker)
        }
    }

    /// The transition out of `DocumentContent`: the next plain scalar, or
    /// the end of the stream once the input is used up.
    pub fn read_document_content<R: Reader>(&mut self, reader: &mut R)
        requires
            wf(old(reader)),
        ensures
            wf(final(reader)),
            moved(
                old(reader),
                final(reader),
                content_step(old(reader).input(), old(reader).offset()).pos,
            ),
            old(self).stepped(
                final(self),
                content_step(old(reader).input(), old(reader).offset()),
            ),
    {
        reader.skip_to_content(true);
        if reader.eof() {
            self.emit_end_of_stream();
            self.state = State::StreamEnd;
            assert(self.tokens@ =~= old(self).tokens@ + seq![SpanToken::StreamEnd]);
        } else {
            let span = reader.read_plain(true);
            self.state = State::DocumentContent;
            self.tokens.push_back(SpanToken::Scalar(span.0, span.1));
            assert(self.tokens@ =~= old(self).tokens@ + seq![SpanToken::Scalar(span.0, span.1)]);
        }
    }
}

} // verus!

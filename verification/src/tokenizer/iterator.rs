//! The pull driver: hands out tokens one at a time and runs the state
//! machine only when its queue is empty.

use vstd::prelude::*;
use crate::tokenizer::reader::{wf, Reader, StrReader};
use crate::tokenizer::scanner::{
    lemma_step_progress, pull, rank, rest, Control, Scanner, SpanToken, State,
};

verus! {

/// A lazy, single-pass token sequence over a string slice.
pub struct StrIterator<'a> {
    state: Scanner,
    reader: StrReader<'a>,
}

impl<'a> StrIterator<'a> {
    /// The bytes being scanned.
    pub closed spec fn input(&self) -> Seq<u8> {
        self.reader.input()
    }

    /// How far the input has been read.
    pub closed spec fn offset(&self) -> int {
        self.reader.offset()
    }

    /// The state the scanner stands in.
    pub closed spec fn current(&self) -> State {
        self.state.current()
    }

    /// The tokens already emitted and not yet handed out, oldest first.
    pub closed spec fn queued(&self) -> Seq<SpanToken> {
        self.state.queue()
    }

    /// Whether the end of the stream has been recorded.
    pub closed spec fn at_end(&self) -> bool {
        self.state.at_end()
    }

    /// The read offset lies within the input or right at its end.
    pub open spec fn wf(&self) -> bool {
        0 <= self.offset() <= self.input().len()
    }

    /// Every token this sequence has yet to hand out, in order: the queued
    /// ones and, unless the end has been recorded, those still to be
    /// scanned.
    pub open spec fn remaining(&self) -> Seq<SpanToken> {
        if self.at_end() {
            self.queued()
        } else {
            self.queued() + rest(self.current(), self.input(), self.offset())
        }
    }

    /// A sequence driven by `state`, reading from `reader`. Neither is
    /// touched until the first pull.
    pub fn new(state: Scanner, reader: StrReader<'a>) -> (it: Self)
        requires
            wf(&reader),
        ensures
            it.wf(),
            it.input() == reader.input(),
            it.offset() == reader.offset(),
            it.current() == state.current(),
            it.queued() == state.queue(),
            it.at_end() == state.at_end(),
    {
        StrIterator { state, reader }
    }

    /// The state the scanner stands in.
    pub fn state(&self) -> (r: State)
        ensures
            r == self.current(),
    {
        self.state.state()
    }

    /// How far the input has been read.
    pub fn pos(&self) -> (p: usize)
        ensures
            p == self.offset(),
    {
        self.reader.pos()
    }

    /// Whether the end of the stream has been recorded.
    pub fn is_eof(&self) -> (r: bool)
        ensures
            r == self.at_end(),
    {
        self.state.is_eof()
    }

    /// Hands out the next token, or `None` once the sequence is used up.
    ///
    /// A queued token is handed out without reading anything. With an empty
    /// queue the scanner makes transitions until one emits tokens; the
    /// first of them is handed out and the others stay queued. Where the
    /// scanner reaches `StreamEnd` with nothing emitted, the end is
    /// recorded and every later pull gives `None` without reading.
    pub fn next(&mut self) -> (r: Option<SpanToken>)
        requires
            old(self).wf(),
        ensures
            final(self).wf(),
            final(self).input() == old(self).input(),
            r == if old(self).remaining().len() > 0 {
                Some(old(self).remaining()[0])
            } else {
                None
            },
            final(self).remaining() == if old(self).remaining().len() > 0 {
                old(self).remaining().skip(1)
            } else {
                old(self).remaining()
            },
            old(self).queued().len() > 0 || old(self).at_end() ==> {
                &&& final(self).current() == old(self).current()
                &&& final(self).offset() == old(self).offset()
                &&& final(self).at_end() == old(self).at_end()
                &&& final(self).queued() == if old(self).queued().len() > 0 {
                    old(self).queued().skip(1)
                } else {
                    old(self).queued()
                }
            },
            old(self).queued().len() == 0 && !old(self).at_end() ==> {
                let n = pull(old(self).current(), old(self).input(), old(self).offset());
                &&& final(self).current() == n.state
                &&& final(self).offset() == n.pos
                &&& final(self).at_end() == (n.tokens.len() == 0)
                &&& final(self).queued() == if n.tokens.len() > 0 {
                    n.tokens.skip(1)
                } else {
                    n.tokens
                }
            },
    {
        if let Some(t) = self.state.pop_token() {
            assert(self.remaining() =~= old(self).remaining().skip(1));
            return Some(t);
        }
        if self.state.is_eof() {
            return None;
        }
        loop
            invariant
                self.wf(),
                self.input() == old(self).input(),
                self.remaining() == old(self).remaining(),
                self.queued().len() == 0,
                !self.at_end(),
                old(self).queued().len() == 0,
                !old(self).at_end(),
                pull(self.current(), self.input(), self.offset()) == pull(
                    old(self).current(),
                    old(self).input(),
                    old(self).offset(),
                ),
            decreases rank(self.current()), self.input().len() - self.offset(),
        {
            let ghost before = self.remaining();
            let ghost state = self.current();
            let ghost pos = self.offset();
            let ghost s = self.input();
            assert(before =~= rest(state, s, pos));
            match self.state.next_state(&mut self.reader) {
                Control::Eof => {
                    self.state.set_eof(true);
                    return None;
                },
                _ => {
                    proof {
                        lemma_step_progress(state, s, pos);
                        assert(self.remaining() =~= before);
                    }
                },
            }
            if let Some(t) = self.state.pop_token() {
                assert(self.remaining() =~= before.skip(1));
                return Some(t);
            }
        }
    }

    /// Hands out every token that is left, in order.
    pub fn collect_tokens(&mut self) -> (all: Vec<SpanToken>)
        requires
            old(self).wf(),
        ensures
            final(self).wf(),
            final(self).input() == old(self).input(),
            all@ == old(self).remaining(),
            final(self).remaining().len() == 0,
    {
        let mut all: Vec<SpanToken> = Vec::new();
        loop
            invariant
                self.wf(),
                self.input() == old(self).input(),
                all@ + self.remaining() == old(self).remaining(),
            decreases self.remaining().len(),
        {
            let ghost before = self.remaining();
            match self.next() {
                Some(t) => {
                    all.push(t);
                    assert(all@ + self.remaining() =~= old(self).remaining()) by {
                        assert(before =~= seq![t] + before.skip(1));
                    }
                },
                None => {
                    assert(all@ =~= all@ + self.remaining());
                    return all;
                },
            }
        }
    }
}

} // verus!

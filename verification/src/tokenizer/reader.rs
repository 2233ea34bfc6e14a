//! The input cursor: a read position over borrowed bytes that only moves
//! forward.

use vstd::prelude::*;
use vstd::string::StringSliceAdditionalSpecFns;
use crate::tokenizer::grammar::{
    blanks_end, content_start, line_end, next_line, plain_end, scan_blanks, scan_break,
    scan_content, scan_line, scan_plain, trim_end, trimmed_end,
};

verus! {

/// The offset `at` lies within the input `s` or right at its end.
pub open spec fn in_input(s: Seq<u8>, at: int) -> bool {
    0 <= at <= s.len()
}

/// A cursor over `s` at `from` became one over `s2` at `at`: the input is
/// the same and the offset went forward to `to`.
pub open spec fn went(s: Seq<u8>, from: int, s2: Seq<u8>, at: int, to: int) -> bool {
    &&& s2 == s
    &&& at == to
    &&& from <= to <= s.len()
}

/// The read offset of `r` lies within its input or right at its end.
pub open spec fn wf<R: Reader>(r: &R) -> bool {
    in_input(r.input(), r.offset())
}

/// `after` is `before` with the read offset moved forward to `to`.
pub open spec fn moved<R: Reader>(before: &R, after: &R, to: int) -> bool {
    went(before.input(), before.offset(), after.input(), after.offset(), to)
}

/// A forward-only cursor over input bytes. An implementation says what the
/// input is, where the cursor stands and how it moves; the reading
/// operations are built on those.
pub trait Reader: Sized {
    /// The bytes under the cursor; they never change.
    spec fn input(&self) -> Seq<u8>;

    /// The read offset.
    spec fn offset(&self) -> int;

    /// The whole input.
    fn bytes(&self) -> (b: &[u8])
        ensures
            b@ == self.input(),
    ;

    /// The read offset.
    fn pos(&self) -> (p: usize)
        ensures
            p == self.offset(),
    ;

    /// Moves `n` bytes forward, or to the end of the input if fewer are left.
    fn consume_bytes(&mut self, n: usize)
        requires
            in_input(old(self).input(), old(self).offset()),
        ensures
            went(
                old(self).input(),
                old(self).offset(),
                final(self).input(),
                final(self).offset(),
                if old(self).offset() + n <= old(self).input().len() {
                    old(self).offset() + n
                } else {
                    old(self).input().len() as int
                },
            ),
    ;

    /// Whether the input is used up.
    fn eof(&self) -> (r: bool)
        requires
            in_input(self.input(), self.offset()),
        ensures
            r == (self.offset() == self.input().len()),
    {
        self.pos() >= self.bytes().len()
    }

    /// The byte under the cursor, without consuming it.
    fn peek_byte(&self) -> (r: Option<u8>)
        requires
            in_input(self.input(), self.offset()),
        ensures
            r == if self.offset() < self.input().len() {
                Some(self.input()[self.offset()])
            } else {
                None
            },
    {
        let bytes = self.bytes();
        let at = self.pos();
        if at < bytes.len() {
            Some(bytes[at])
        } else {
            None
        }
    }

    /// Whether the byte under the cursor is `b`.
    fn peek_byte_is(&self, b: u8) -> (r: bool)
        requires
            in_input(self.input(), self.offset()),
        ensures
            r == (self.offset() < self.input().len() && self.input()[self.offset()] == b),
    {
        let bytes = self.bytes();
        let at = self.pos();
        at < bytes.len() && bytes[at] == b
    }

    /// Moves one byte forward; at the end of the input nothing happens.
    fn advance(&mut self)
        requires
            in_input(old(self).input(), old(self).offset()),
        ensures
            went(
                old(self).input(),
                old(self).offset(),
                final(self).input(),
                final(self).offset(),
                if old(self).offset() < old(self).input().len() {
                    old(self).offset() + 1
                } else {
                    old(self).offset()
                },
            ),
    {
        self.consume_bytes(1);
    }

    /// Passes over spaces and tabs and returns how many there were.
    fn skip_space_tab(&mut self) -> (n: usize)
        requires
            in_input(old(self).input(), old(self).offset()),
        ensures
            went(
                old(self).input(),
                old(self).offset(),
                final(self).input(),
                final(self).offset(), blanks_end(old(self).input(), old(self).offset())),
            n == final(self).offset() - old(self).offset(),
    {
        let start = self.pos();
        let n = scan_blanks(self.bytes(), start) - start;
        self.consume_bytes(n);
        n
    }

    /// Passes over leading bytes for which `pred` answers `true` and returns
    /// how many there were.
    fn skip_while<F: Fn(u8) -> bool>(&mut self, pred: F) -> (n: usize)
        requires
            in_input(old(self).input(), old(self).offset()),
            forall|b: u8| pred.requires((b,)),
        ensures
            went(
                old(self).input(),
                old(self).offset(),
                final(self).input(),
                final(self).offset(),
                old(self).offset() + n,
            ),
            forall|k: int|
                old(self).offset() <= k < final(self).offset() ==> pred.ensures(
                    (#[trigger] old(self).input()[k],),
                    true,
                ),
            final(self).offset() < old(self).input().len() ==> pred.ensures(
                (old(self).input()[final(self).offset()],),
                false,
            ),
    {
        let bytes = self.bytes();
        let mut at: usize = self.pos();
        while at < bytes.len() && pred(bytes[at])
            invariant
                bytes@ == old(self).input(),
                old(self).offset() <= at <= bytes@.len(),
                forall|b: u8| pred.requires((b,)),
                forall|k: int|
                    old(self).offset() <= k < at ==> pred.ensures((#[trigger] bytes@[k],), true),
            ensures
                at < bytes@.len() ==> pred.ensures((bytes@[at as int],), false),
            decreases bytes@.len() - at,
        {
            at += 1;
        }
        let n = at - self.pos();
        self.consume_bytes(n);
        n
    }

    /// Consumes the rest of the line and its terminator. Returns the range
    /// that was consumed, without the terminator.
    fn read_line(&mut self) -> (span: (usize, usize))
        requires
            in_input(old(self).input(), old(self).offset()),
        ensures
            went(
                old(self).input(),
                old(self).offset(),
                final(self).input(),
                final(self).offset(), next_line(old(self).input(), old(self).offset())),
            span.0 == old(self).offset(),
            span.1 == line_end(old(self).input(), old(self).offset()),
            span.0 <= span.1 <= final(self).offset(),
            old(self).offset() < old(self).input().len() ==> span.0 < final(self).offset(),
    {
        let start = self.pos();
        let end = scan_line(self.bytes(), start);
        let n = scan_break(self.bytes(), end) - start;
        self.consume_bytes(n);
        (start, end)
    }

    /// Passes over blanks, empty lines and comment lines, and with `flow`
    /// set over indicators too.
    fn skip_to_content(&mut self, flow: bool)
        requires
            in_input(old(self).input(), old(self).offset()),
        ensures
            went(
                old(self).input(),
                old(self).offset(),
                final(self).input(),
                final(self).offset(),
                content_start(old(self).input(), old(self).offset(), flow),
            ),
    {
        let start = self.pos();
        let n = scan_content(self.bytes(), start, flow) - start;
        self.consume_bytes(n);
    }

    /// Consumes a run of plain text. Returns its range with trailing blanks
    /// cut off.
    fn read_plain(&mut self, flow: bool) -> (span: (usize, usize))
        requires
            in_input(old(self).input(), old(self).offset()),
        ensures
            went(
                old(self).input(),
                old(self).offset(),
                final(self).input(),
                final(self).offset(),
                plain_end(old(self).input(), old(self).offset(), flow),
            ),
            span.0 == old(self).offset(),
            span.1 == trimmed_end(
                old(self).input(),
                old(self).offset(),
                plain_end(old(self).input(), old(self).offset(), flow),
            ),
            span.0 <= span.1 <= final(self).offset(),
    {
        let start = self.pos();
        let stop = scan_plain(self.bytes(), start, flow);
        let end = trim_end(self.bytes(), start, stop);
        self.consume_bytes(stop - start);
        (start, end)
    }
}

/// A cursor over the bytes of a string slice.
pub struct StrReader<'a> {
    slice: &'a [u8],
    pos: usize,
}

impl<'a> Reader for StrReader<'a> {
    closed spec fn input(&self) -> Seq<u8> {
        self.slice@
    }

    closed spec fn offset(&self) -> int {
        self.pos as int
    }

    fn bytes(&self) -> (b: &[u8]) {
        self.slice
    }

    fn pos(&self) -> (p: usize) {
        self.pos
    }

    fn consume_bytes(&mut self, n: usize) {
        if n <= self.slice.len() - self.pos {
            self.pos += n;
        } else {
            self.pos = self.slice.len();
        }
    }
}

impl<'a> StrReader<'a> {
    /// A cursor at the start of `input`.
    pub fn new(input: &'a str) -> (r: Self)
        ensures
            wf(&r),
            r.input() == input.spec_bytes(),
            r.offset() == 0,
    {
        StrReader { slice: input.as_bytes(), pos: 0 }
    }

    /// A cursor at the start of `bytes`.
    pub fn from_bytes(bytes: &'a [u8]) -> (r: Self)
        ensures
            wf(&r),
            r.input() == bytes@,
            r.offset() == 0,
    {
        StrReader { slice: bytes, pos: 0 }
    }
}

} // verus!

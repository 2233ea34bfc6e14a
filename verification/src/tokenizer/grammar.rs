//! The byte-level grammar: where runs of blanks, lines, words and plain
//! scalars end. Each rule is a spec function on the input bytes, paired with
//! an executable scanner proved to compute it.

use vstd::prelude::*;
use crate::tokenizer::scanner::DirectiveKind;

verus! {

pub const SPACE: u8 = 0x20;
pub const TAB: u8 = 0x09;
pub const LF: u8 = 0x0a;
pub const CR: u8 = 0x0d;
pub const HASH: u8 = 0x23;
pub const PERCENT: u8 = 0x25;
pub const DASH: u8 = 0x2d;

/// A space or a tab.
pub open spec fn is_blank(b: u8) -> bool {
    b == SPACE || b == TAB
}

/// A line feed or a carriage return.
pub open spec fn is_break(b: u8) -> bool {
    b == LF || b == CR
}

/// A byte that delimits a plain scalar inside a document: `:` and the flow
/// indicators `,`, `[`, `]`, `{`, `}`.
pub open spec fn is_indicator(b: u8) -> bool {
    b == 0x3a || b == 0x2c || b == 0x5b || b == 0x5d || b == 0x7b || b == 0x7d
}

/// First offset at or after `i` that holds neither a space nor a tab.
pub open spec fn blanks_end(s: Seq<u8>, i: int) -> int
    decreases s.len() - i,
{
    if 0 <= i < s.len() && is_blank(s[i]) {
        blanks_end(s, i + 1)
    } else {
        i
    }
}

/// First offset at or after `i` that holds a line break; the input's length
/// if there is none.
pub open spec fn line_end(s: Seq<u8>, i: int) -> int
    decreases s.len() - i,
{
    if 0 <= i < s.len() && !is_break(s[i]) {
        line_end(s, i + 1)
    } else {
        i
    }
}

/// The offset just past the line terminator at `e`: `\n`, `\r\n` or a lone
/// `\r`. Where `e` holds no break, `e` itself.
pub open spec fn break_end(s: Seq<u8>, e: int) -> int {
    if 0 <= e < s.len() && is_break(s[e]) {
        if s[e] == CR && e + 1 < s.len() && s[e + 1] == LF {
            e + 2
        } else {
            e + 1
        }
    } else {
        e
    }
}

/// Where the line after the one holding offset `i` starts.
pub open spec fn next_line(s: Seq<u8>, i: int) -> int {
    break_end(s, line_end(s, i))
}

/// First offset at or after `i` that holds a blank or a break.
pub open spec fn word_end(s: Seq<u8>, i: int) -> int
    decreases s.len() - i,
{
    if 0 <= i < s.len() && !is_blank(s[i]) && !is_break(s[i]) {
        word_end(s, i + 1)
    } else {
        i
    }
}

/// A `#` right after a blank starts a comment.
pub open spec fn is_comment_at(s: Seq<u8>, j: int) -> bool {
    0 < j < s.len() && s[j] == HASH && is_blank(s[j - 1])
}

/// Whether the byte at `j` ends a run of plain text: a break, a comment, or,
/// with `flow` set, an indicator.
pub open spec fn ends_plain(s: Seq<u8>, j: int, flow: bool) -> bool {
    is_break(s[j]) || is_comment_at(s, j) || (flow && is_indicator(s[j]))
}

/// First offset at or after `i` at which a run of plain text ends.
pub open spec fn plain_end(s: Seq<u8>, i: int, flow: bool) -> int
    decreases s.len() - i,
{
    if 0 <= i < s.len() && !ends_plain(s, i, flow) {
        plain_end(s, i + 1, flow)
    } else {
        i
    }
}

/// The end of `[a, e)` once trailing blanks are cut off.
pub open spec fn trimmed_end(s: Seq<u8>, a: int, e: int) -> int
    decreases e - a,
{
    if a < e <= s.len() && is_blank(s[e - 1]) {
        trimmed_end(s, a, e - 1)
    } else {
        e
    }
}

/// First offset at or after `i` that holds content: blanks, empty lines and
/// comment lines are passed over, and with `flow` set indicators too.
pub open spec fn content_start(s: Seq<u8>, i: int, flow: bool) -> int
    decreases s.len() - i,
    via content_start_decreases
{
    let j = blanks_end(s, i);
    if 0 <= j < s.len() {
        if s[j] == HASH || is_break(s[j]) {
            content_start(s, next_line(s, j), flow)
        } else if flow && is_indicator(s[j]) {
            content_start(s, j + 1, flow)
        } else {
            j
        }
    } else {
        j
    }
}

#[via_fn]
proof fn content_start_decreases(s: Seq<u8>, i: int, flow: bool) {
    let j = blanks_end(s, i);
    if 0 <= i {
        lemma_blanks_end(s, i);
    }
    if 0 <= j < s.len() {
        lemma_next_line(s, j);
    }
}

/// Offset `i` is the first of its line: the input starts there or a line
/// break stands right before it.
pub open spec fn starts_line(s: Seq<u8>, i: int) -> bool {
    i == 0 || (0 < i <= s.len() && is_break(s[i - 1]))
}

/// A line starts at `r` with the three bytes `---`, and a blank, a break or
/// the end of the input follows them.
pub open spec fn is_document_start(s: Seq<u8>, r: int) -> bool {
    &&& starts_line(s, r)
    &&& r + 3 <= s.len()
    &&& s[r] == DASH
    &&& s[r + 1] == DASH
    &&& s[r + 2] == DASH
    &&& (r + 3 == s.len() || is_blank(s[r + 3]) || is_break(s[r + 3]))
}

/// The kind of the directive with the given name.
pub open spec fn directive_kind(name: Seq<u8>) -> DirectiveKind {
    if name =~= seq![0x59u8, 0x41u8, 0x4du8, 0x4cu8] {
        DirectiveKind::Version
    } else if name =~= seq![0x54u8, 0x41u8, 0x47u8] {
        DirectiveKind::Tag
    } else {
        DirectiveKind::Reserved
    }
}

pub proof fn lemma_blanks_end(s: Seq<u8>, i: int)
    requires
        0 <= i,
    ensures
        i <= blanks_end(s, i),
        i <= s.len() ==> blanks_end(s, i) <= s.len(),
        blanks_end(s, i) < s.len() ==> !is_blank(s[blanks_end(s, i)]),
    decreases s.len() - i,
{
    if i < s.len() && is_blank(s[i]) {
        lemma_blanks_end(s, i + 1);
    }
}

pub proof fn lemma_line_end(s: Seq<u8>, i: int)
    requires
        0 <= i,
    ensures
        i <= line_end(s, i),
        i <= s.len() ==> line_end(s, i) <= s.len(),
        line_end(s, i) < s.len() ==> is_break(s[line_end(s, i)]),
    decreases s.len() - i,
{
    if i < s.len() && !is_break(s[i]) {
        lemma_line_end(s, i + 1);
    }
}

pub proof fn lemma_next_line(s: Seq<u8>, i: int)
    requires
        0 <= i,
    ensures
        i <= next_line(s, i),
        i < s.len() ==> i < next_line(s, i),
        i <= s.len() ==> next_line(s, i) <= s.len(),
{
    lemma_line_end(s, i);
}

pub proof fn lemma_word_end(s: Seq<u8>, i: int)
    requires
        0 <= i,
    ensures
        i <= word_end(s, i),
        i <= s.len() ==> word_end(s, i) <= s.len(),
    decreases s.len() - i,
{
    if i < s.len() && !is_blank(s[i]) && !is_break(s[i]) {
        lemma_word_end(s, i + 1);
    }
}

pub proof fn lemma_plain_end(s: Seq<u8>, i: int, flow: bool)
    requires
        0 <= i,
    ensures
        i <= plain_end(s, i, flow),
        i <= s.len() ==> plain_end(s, i, flow) <= s.len(),
        i < s.len() && !ends_plain(s, i, flow) ==> i < plain_end(s, i, flow),
    decreases s.len() - i,
{
    if i < s.len() && !ends_plain(s, i, flow) {
        lemma_plain_end(s, i + 1, flow);
    }
}

pub proof fn lemma_trimmed_end(s: Seq<u8>, a: int, e: int)
    requires
        a <= e,
    ensures
        a <= trimmed_end(s, a, e) <= e,
        0 <= a < e <= s.len() && !is_blank(s[a]) ==> a < trimmed_end(s, a, e),
    decreases e - a,
{
    if a < e <= s.len() && is_blank(s[e - 1]) {
        lemma_trimmed_end(s, a, e - 1);
    }
}

pub proof fn lemma_content_start(s: Seq<u8>, i: int, flow: bool)
    requires
        0 <= i,
    ensures
        i <= content_start(s, i, flow),
        i <= s.len() ==> content_start(s, i, flow) <= s.len(),
        content_start(s, i, flow) < s.len() ==> {
            let c = s[content_start(s, i, flow)];
            !is_blank(c) && !is_break(c) && c != HASH && (flow ==> !is_indicator(c))
        },
    decreases s.len() - i,
{
    let j = blanks_end(s, i);
    lemma_blanks_end(s, i);
    if j < s.len() {
        if s[j] == HASH || is_break(s[j]) {
            lemma_next_line(s, j);
            lemma_content_start(s, next_line(s, j), flow);
        } else if flow && is_indicator(s[j]) {
            lemma_content_start(s, j + 1, flow);
        }
    }
}

/// Tells whether `b` is a space or a tab.
pub fn blank(b: u8) -> (r: bool)
    ensures
        r == is_blank(b),
{
    b == SPACE || b == TAB
}

/// Tells whether `b` is a line feed or a carriage return.
pub fn line_break(b: u8) -> (r: bool)
    ensures
        r == is_break(b),
{
    b == LF || b == CR
}

/// Tells whether `b` is `:` or a flow indicator.
pub fn indicator(b: u8) -> (r: bool)
    ensures
        r == is_indicator(b),
{
    b == 0x3a || b == 0x2c || b == 0x5b || b == 0x5d || b == 0x7b || b == 0x7d
}

/// Finds the end of the run of blanks that starts at `from`.
pub fn scan_blanks(s: &[u8], from: usize) -> (r: usize)
    requires
        from <= s@.len(),
    ensures
        r == blanks_end(s@, from as int),
        from <= r <= s@.len(),
{
    let mut i: usize = from;
    while i < s.len() && blank(s[i])
        invariant
            from <= i <= s@.len(),
            blanks_end(s@, from as int) == blanks_end(s@, i as int),
        decreases s@.len() - i,
    {
        i += 1;
    }
    i
}

/// Finds the end of the line that holds offset `from`, before its terminator.
pub fn scan_line(s: &[u8], from: usize) -> (r: usize)
    requires
        from <= s@.len(),
    ensures
        r == line_end(s@, from as int),
        from <= r <= s@.len(),
        r < s@.len() ==> is_break(s@[r as int]),
{
    let mut i: usize = from;
    while i < s.len() && !line_break(s[i])
        invariant
            from <= i <= s@.len(),
            line_end(s@, from as int) == line_end(s@, i as int),
        decreases s@.len() - i,
    {
        i += 1;
    }
    i
}

/// Steps over the line terminator at `e`, if there is one.
pub fn scan_break(s: &[u8], e: usize) -> (r: usize)
    requires
        e <= s@.len(),
    ensures
        r == break_end(s@, e as int),
        e <= r <= s@.len(),
{
    if e < s.len() && line_break(s[e]) {
        if s[e] == CR && e + 1 < s.len() && s[e + 1] == LF {
            e + 2
        } else {
            e + 1
        }
    } else {
        e
    }
}

/// Finds the start of the line after the one that holds offset `from`.
pub fn scan_next_line(s: &[u8], from: usize) -> (r: usize)
    requires
        from <= s@.len(),
    ensures
        r == next_line(s@, from as int),
        from <= r <= s@.len(),
        from < s@.len() ==> from < r,
{
    let e = scan_line(s, from);
    scan_break(s, e)
}

/// Finds the end of the word that starts at `from`.
pub fn scan_word(s: &[u8], from: usize) -> (r: usize)
    requires
        from <= s@.len(),
    ensures
        r == word_end(s@, from as int),
        from <= r <= s@.len(),
{
    let mut i: usize = from;
    while i < s.len() && !blank(s[i]) && !line_break(s[i])
        invariant
            from <= i <= s@.len(),
            word_end(s@, from as int) == word_end(s@, i as int),
        decreases s@.len() - i,
    {
        i += 1;
    }
    i
}

/// Tells whether a run of plain text ends at `j`.
pub fn plain_ends_at(s: &[u8], j: usize, flow: bool) -> (r: bool)
    requires
        j < s@.len(),
    ensures
        r == ends_plain(s@, j as int, flow),
{
    let b = s[j];
    line_break(b) || (b == HASH && j > 0 && blank(s[j - 1])) || (flow && indicator(b))
}

/// Finds the end of the run of plain text that starts at `from`.
pub fn scan_plain(s: &[u8], from: usize, flow: bool) -> (r: usize)
    requires
        from <= s@.len(),
    ensures
        r == plain_end(s@, from as int, flow),
        from <= r <= s@.len(),
{
    let mut i: usize = from;
    while i < s.len() && !plain_ends_at(s, i, flow)
        invariant
            from <= i <= s@.len(),
            plain_end(s@, from as int, flow) == plain_end(s@, i as int, flow),
        decreases s@.len() - i,
    {
        i += 1;
    }
    i
}

/// Cuts trailing blanks off the range `[a, e)` and returns its new end.
pub fn trim_end(s: &[u8], a: usize, e: usize) -> (r: usize)
    requires
        a <= e <= s@.len(),
    ensures
        r == trimmed_end(s@, a as int, e as int),
        a <= r <= e,
{
    let mut i: usize = e;
    while a < i && blank(s[i - 1])
        invariant
            a <= i <= e,
            e <= s@.len(),
            trimmed_end(s@, a as int, e as int) == trimmed_end(s@, a as int, i as int),
        decreases i - a,
    {
        i -= 1;
    }
    i
}

/// Finds the next content at or after `from`.
pub fn scan_content(s: &[u8], from: usize, flow: bool) -> (r: usize)
    requires
        from <= s@.len(),
    ensures
        r == content_start(s@, from as int, flow),
        from <= r <= s@.len(),
{
    let mut i: usize = from;
    loop
        invariant
            from <= i <= s@.len(),
            content_start(s@, from as int, flow) == content_start(s@, i as int, flow),
        decreases s@.len() - i,
    {
        let j = scan_blanks(s, i);
        if j < s.len() && (s[j] == HASH || line_break(s[j])) {
            i = scan_next_line(s, j);
        } else if j < s.len() && flow && indicator(s[j]) {
            i = j + 1;
        } else {
            return j;
        }
    }
}

/// Tells whether a line starts at `i`.
pub fn line_starts_at(s: &[u8], i: usize) -> (r: bool)
    requires
        i <= s@.len(),
    ensures
        r == starts_line(s@, i as int),
{
    i == 0 || line_break(s[i - 1])
}

/// Tells whether the document start marker `---` stands at `r`.
pub fn document_start_at(s: &[u8], r: usize) -> (found: bool)
    requires
        r <= s@.len(),
    ensures
        found == is_document_start(s@, r as int),
{
    if s.len() - r < 3 || !line_starts_at(s, r) {
        return false;
    }
    s[r] == DASH && s[r + 1] == DASH && s[r + 2] == DASH && (r + 3 == s.len() || blank(s[r + 3])
        || line_break(s[r + 3]))
}

/// Classifies the directive whose name is the range `[a, e)`.
pub fn classify_directive(s: &[u8], a: usize, e: usize) -> (kind: DirectiveKind)
    requires
        a <= e <= s@.len(),
    ensures
        kind == directive_kind(s@.subrange(a as int, e as int)),
{
    let ghost name = s@.subrange(a as int, e as int);
    if e - a == 4 && s[a] == 0x59 && s[a + 1] == 0x41 && s[a + 2] == 0x4d && s[a + 3] == 0x4c {
        assert(name =~= seq![0x59u8, 0x41u8, 0x4du8, 0x4cu8]);
        DirectiveKind::Version
    } else if e - a == 3 && s[a] == 0x54 && s[a + 1] == 0x41 && s[a + 2] == 0x47 {
        assert(name =~= seq![0x54u8, 0x41u8, 0x47u8]);
        DirectiveKind::Tag
    } else {
        proof {
            let y = seq![0x59u8, 0x41u8, 0x4du8, 0x4cu8];
            let t = seq![0x54u8, 0x41u8, 0x47u8];
            if name =~= y {
                assert(name.len() == 4);
                assert(name[0] == y[0] && name[1] == y[1] && name[2] == y[2] && name[3] == y[3]);
            }
            if name =~= t {
                assert(name.len() == 3);
                assert(name[0] == t[0] && name[1] == t[1] && name[2] == t[2]);
            }
        }
        DirectiveKind::Reserved
    }
}

} // verus!

//! The scan cursor: the remaining input together with the current line,
//! column, absolute position and the exhausted flag. The cursor only ever
//! advances; every scanner that runs over it (top-level or nested) sees the
//! same, monotonically shrinking remainder.

use vstd::prelude::*;
use crate::src_loc::{SpanV, SrcLoc};

verus! {

/// Mathematical value of a [`LexBuf`]: the full source, how far it has been
/// consumed, the (line, column) position of the next character, and whether
/// the end of input has already been observed.
pub struct BufV {
    pub src: Seq<char>,
    pub pos: int,
    pub line: int,
    pub col: int,
    pub empty: bool,
}

/// Position reached after consuming one character: a newline moves to the
/// start of the next line, any other character moves one column right.
pub open spec fn lc_step(line: int, col: int, ch: char) -> (int, int) {
    if ch == '\n' {
        (line + 1, 1)
    } else {
        (line, col + 1)
    }
}

/// Position reached after consuming a sequence of characters in order.
pub open spec fn lc_advance(line: int, col: int, s: Seq<char>) -> (int, int)
    decreases s.len(),
{
    if s.len() == 0 {
        (line, col)
    } else {
        let st = lc_step(line, col, s[0]);
        lc_advance(st.0, st.1, s.skip(1))
    }
}

/// Consuming one more character advances the position by one step.
pub proof fn lemma_lc_advance_push(line: int, col: int, s: Seq<char>, ch: char)
    ensures
        lc_advance(line, col, s.push(ch)) == lc_step(
            lc_advance(line, col, s).0,
            lc_advance(line, col, s).1,
            ch,
        ),
    decreases s.len(),
{
    if s.len() == 0 {
        let st = lc_step(line, col, ch);
        assert(s.push(ch)[0] == ch);
        assert(s.push(ch).skip(1) =~= Seq::<char>::empty());
        assert(lc_advance(st.0, st.1, Seq::<char>::empty()) == st);
    } else {
        let st = lc_step(line, col, s[0]);
        assert(s.push(ch)[0] == s[0]);
        assert(s.push(ch).skip(1) =~= s.skip(1).push(ch));
        lemma_lc_advance_push(st.0, st.1, s.skip(1), ch);
    }
}

/// Consuming two sequences in order advances over their concatenation.
pub proof fn lemma_lc_advance_concat(line: int, col: int, s: Seq<char>, t: Seq<char>)
    ensures
        lc_advance(line, col, s + t) == lc_advance(
            lc_advance(line, col, s).0,
            lc_advance(line, col, s).1,
            t,
        ),
    decreases s.len(),
{
    if s.len() == 0 {
        assert(s + t =~= t);
    } else {
        let st = lc_step(line, col, s[0]);
        assert((s + t)[0] == s[0]);
        assert((s + t).skip(1) =~= s.skip(1) + t);
        lemma_lc_advance_concat(st.0, st.1, s.skip(1), t);
    }
}

/// Consuming never moves the position backward in (line, column) order.
pub proof fn lemma_lc_advance_ge(line: int, col: int, s: Seq<char>)
    ensures
        crate::src_loc::pos_le(line, col, lc_advance(line, col, s).0, lc_advance(line, col, s).1),
    decreases s.len(),
{
    if s.len() > 0 {
        let st = lc_step(line, col, s[0]);
        lemma_lc_advance_ge(st.0, st.1, s.skip(1));
    }
}

/// The position after consuming `s` is bounded by the length of `s`.
pub proof fn lemma_lc_advance_bounds(line: int, col: int, s: Seq<char>)
    requires
        line >= 1,
        col >= 1,
    ensures
        lc_advance(line, col, s).0 >= line,
        lc_advance(line, col, s).1 >= 1,
        lc_advance(line, col, s).0 <= line + s.len(),
        lc_advance(line, col, s).1 <= col + s.len(),
    decreases s.len(),
{
    if s.len() > 0 {
        let st = lc_step(line, col, s[0]);
        lemma_lc_advance_bounds(st.0, st.1, s.skip(1));
    }
}

impl BufV {
    /// The still-unconsumed suffix of the source.
    pub open spec fn rest(self) -> Seq<char> {
        self.src.skip(self.pos)
    }

    /// Number of unconsumed characters.
    pub open spec fn rest_len(self) -> int {
        self.src.len() - self.pos
    }

    /// Cursor invariant: the consumed prefix is within bounds and the
    /// (line, column) position is exactly the one reached by consuming it
    /// from (1, 1).
    pub open spec fn inv(self) -> bool {
        &&& 0 <= self.pos <= self.src.len()
        &&& self.src.len() < usize::MAX
        &&& (self.line, self.col) == lc_advance(1, 1, self.src.take(self.pos))
    }

    /// The span of the next `len` characters: it starts at the current
    /// position and ends at the position *of* the last consumed character
    /// (not one past it); a zero-width span ends where it starts.
    pub open spec fn span_of(self, len: int) -> SpanV {
        let e = if len >= 1 {
            lc_advance(self.line, self.col, self.rest().take(len - 1))
        } else {
            (self.line, self.col)
        };
        SpanV {
            start_line: self.line,
            start_col: self.col,
            end_line: e.0,
            end_col: e.1,
            abs_start: self.pos,
            abs_end: self.pos + len,
        }
    }

    /// The cursor after consuming `len` characters.
    pub open spec fn advanced(self, len: int) -> BufV {
        let e = lc_advance(self.line, self.col, self.rest().take(len));
        BufV { src: self.src, pos: self.pos + len, line: e.0, col: e.1, empty: self.empty }
    }
}

/// A cursor's position is within the machine bounds set by its invariant.
pub proof fn lemma_inv_bounds(b: BufV)
    requires
        b.inv(),
    ensures
        1 <= b.line <= 1 + b.pos,
        1 <= b.col <= 1 + b.pos,
{
    lemma_lc_advance_bounds(1, 1, b.src.take(b.pos));
}

/// Advancing a well-formed cursor within the remaining input keeps it
/// well-formed.
pub proof fn lemma_inv_advanced(b: BufV, len: int)
    requires
        b.inv(),
        0 <= len <= b.rest_len(),
    ensures
        b.advanced(len).inv(),
        b.advanced(len).rest() =~= b.rest().skip(len),
{
    assert(b.src.take(b.pos + len) =~= b.src.take(b.pos) + b.rest().take(len));
    lemma_lc_advance_concat(1, 1, b.src.take(b.pos), b.rest().take(len));
}

/// The scan cursor. Created once per scan over a fully materialized source;
/// all rule sets that take part in the scan (including nested ones) advance
/// this same cursor.
pub struct LexBuf {
    src: Vec<char>,
    pos: usize,
    line: usize,
    col: usize,
    empty: bool,
}

impl View for LexBuf {
    type V = BufV;

    closed spec fn view(&self) -> BufV {
        BufV {
            src: self.src@,
            pos: self.pos as int,
            line: self.line as int,
            col: self.col as int,
            empty: self.empty,
        }
    }
}

/// Relies on `str::chars`: yields exactly the characters of the string, in
/// order, which are collected into a vector.
#[verifier::external_body]
pub(crate) fn chars_of(s: &str) -> (r: Vec<char>)
    ensures
        r@ == s@,
{
    s.chars().collect()
}

impl LexBuf {
    /// Create a cursor over a source string, at line 1, column 1.
    pub fn new(source: &str) -> (r: LexBuf)
        requires
            source@.len() < usize::MAX,
        ensures
            r@ == (BufV { src: source@, pos: 0, line: 1, col: 1, empty: false }),
            r@.inv(),
    {
        let src = chars_of(source);
        proof {
            assert(src@.take(0) =~= Seq::<char>::empty());
        }
        LexBuf { src, pos: 0, line: 1, col: 1, empty: false }
    }

    /// The line of the next character to be consumed (starting at 1).
    pub fn line(&self) -> (r: usize)
        ensures
            r == self@.line,
    {
        self.line
    }

    /// The column of the next character to be consumed (starting at 1).
    pub fn col(&self) -> (r: usize)
        ensures
            r == self@.col,
    {
        self.col
    }

    /// The absolute character offset consumed so far.
    pub fn abs_pos(&self) -> (r: usize)
        ensures
            r == self@.pos,
    {
        self.pos
    }

    /// Number of characters not yet consumed.
    pub fn rest_len(&self) -> (r: usize)
        requires
            self@.inv(),
        ensures
            r == self@.rest_len(),
    {
        self.src.len() - self.pos
    }

    /// Whether the end of input has already been observed by a scanner.
    pub fn exhausted(&self) -> (r: bool)
        ensures
            r == self@.empty,
    {
        self.empty
    }

    /// The underlying character vector of the full source.
    pub(crate) fn src_vec(&self) -> (r: &Vec<char>)
        ensures
            r@ == self@.src,
    {
        &self.src
    }

    /// The next unconsumed character.
    pub(crate) fn peek(&self) -> (r: char)
        requires
            self@.rest_len() > 0,
        ensures
            r == self@.rest()[0],
    {
        self.src[self.pos]
    }

    /// Record that the end of input has been observed.
    pub(crate) fn mark_exhausted(&mut self)
        ensures
            final(self)@ == (BufV { empty: true, ..old(self)@ }),
    {
        self.empty = true;
    }

    /// Consume `len` characters, updating line and column per character,
    /// and return the span of the consumed range.
    pub(crate) fn advance(&mut self, len: usize) -> (r: SrcLoc)
        requires
            old(self)@.inv(),
            len <= old(self)@.rest_len(),
        ensures
            final(self)@ == old(self)@.advanced(len as int),
            final(self)@.inv(),
            r@ == old(self)@.span_of(len as int),
    {
        let ghost b0 = self@;
        let start_line = self.line;
        let start_col = self.col;
        let mut end_line = self.line;
        let mut end_col = self.col;
        let abs_start = self.pos;
        let mut i: usize = 0;
        proof {
            assert(b0.rest().take(0) =~= Seq::<char>::empty());
            lemma_inv_bounds(b0);
        }
        while i < len
            invariant
                i <= len,
                len <= b0.rest_len(),
                b0.inv(),
                self@.src == b0.src,
                self@.empty == b0.empty,
                self@.pos == b0.pos + i,
                (self@.line, self@.col) == lc_advance(b0.line, b0.col, b0.rest().take(i as int)),
                self@.inv(),
                len >= 1 && i >= len ==> (end_line as int, end_col as int) == lc_advance(
                    b0.line,
                    b0.col,
                    b0.rest().take(len - 1),
                ),
                i == 0 ==> end_line as int == b0.line && end_col as int == b0.col,
            decreases len - i,
        {
            let ghost prev = self@;
            if i == len - 1 {
                end_line = self.line;
                end_col = self.col;
            }
            let c = self.src[self.pos];
            proof {
                assert(b0.rest().take(i + 1) =~= b0.rest().take(i as int).push(c)) by {
                    assert(b0.rest()[i as int] == b0.src[b0.pos + i]);
                }
                lemma_lc_advance_push(b0.line, b0.col, b0.rest().take(i as int), c);
                assert(b0.src.take(prev.pos + 1) =~= b0.src.take(prev.pos).push(c));
                lemma_lc_advance_push(1, 1, b0.src.take(prev.pos), c);
                lemma_inv_bounds(prev);
            }
            if c == '\n' {
                self.line = self.line + 1;
                self.col = 1;
            } else {
                self.col = self.col + 1;
            }
            self.pos = self.pos + 1;
            i = i + 1;
        }
        proof {
            assert(self@ == b0.advanced(len as int));
        }
        SrcLoc::new((start_line, start_col), (end_line, end_col), (abs_start, abs_start + len))
    }
}

} // verus!

//! Source locations: immutable half-open ranges over the scanned input,
//! expressed both as (line, column) pairs and as absolute character offsets.

use vstd::prelude::*;

verus! {

/// Mathematical value of a [`SrcLoc`]: start and end (line, column) pairs
/// and the absolute character range `[abs_start, abs_end)`.
pub struct SpanV {
    pub start_line: int,
    pub start_col: int,
    pub end_line: int,
    pub end_col: int,
    pub abs_start: int,
    pub abs_end: int,
}

/// Lexicographic order on (line, column) positions.
pub open spec fn pos_le(l1: int, c1: int, l2: int, c2: int) -> bool {
    l1 < l2 || (l1 == l2 && c1 <= c2)
}

impl SpanV {
    /// A span is ordered when its start does not lie after its end.
    pub open spec fn ordered(self) -> bool {
        pos_le(self.start_line, self.start_col, self.end_line, self.end_col)
            && self.abs_start <= self.abs_end
    }
}

/// A location in the source: a half-open range given by (line, column)
/// start and end pairs together with absolute character offsets.
#[derive(Clone, Copy, Debug, PartialEq, Eq, Structural)]
pub struct SrcLoc {
    pub start_line: usize,
    pub start_col: usize,
    pub end_line: usize,
    pub end_col: usize,
    pub abs_start: usize,
    pub abs_end: usize,
}

impl View for SrcLoc {
    type V = SpanV;

    open spec fn view(&self) -> SpanV {
        SpanV {
            start_line: self.start_line as int,
            start_col: self.start_col as int,
            end_line: self.end_line as int,
            end_col: self.end_col as int,
            abs_start: self.abs_start as int,
            abs_end: self.abs_end as int,
        }
    }
}

impl SrcLoc {
    /// Create a new source location from a start and end position and the
    /// absolute character range.
    pub fn new(start: (usize, usize), end: (usize, usize), abs: (usize, usize)) -> (r: SrcLoc)
        ensures
            r@ == (SpanV {
                start_line: start.0 as int,
                start_col: start.1 as int,
                end_line: end.0 as int,
                end_col: end.1 as int,
                abs_start: abs.0 as int,
                abs_end: abs.1 as int,
            }),
    {
        SrcLoc {
            start_line: start.0,
            start_col: start.1,
            end_line: end.0,
            end_col: end.1,
            abs_start: abs.0,
            abs_end: abs.1,
        }
    }

    /// The start of the source location, as (line, column).
    pub fn start(&self) -> (r: (usize, usize))
        ensures
            r.0 == self@.start_line && r.1 == self@.start_col,
    {
        (self.start_line, self.start_col)
    }

    /// The end of the source location, as (line, column).
    pub fn end(&self) -> (r: (usize, usize))
        ensures
            r.0 == self@.end_line && r.1 == self@.end_col,
    {
        (self.end_line, self.end_col)
    }

    /// The full location as (start_line, start_col, end_line, end_col).
    pub fn get_loc(&self) -> (r: (usize, usize, usize, usize))
        ensures
            r.0 == self@.start_line && r.1 == self@.start_col && r.2 == self@.end_line && r.3
                == self@.end_col,
    {
        (self.start_line, self.start_col, self.end_line, self.end_col)
    }

    /// The absolute character range `[start, end)` of the location.
    pub fn get_abs_loc(&self) -> (r: (usize, usize))
        ensures
            r.0 == self@.abs_start && r.1 == self@.abs_end,
    {
        (self.abs_start, self.abs_end)
    }

    /// Combine two locations into one spanning from the start of `self` to
    /// the end of `other`. Defined only when `self` ends at or before the
    /// start of `other`; asking to combine overlapping locations is a
    /// contract violation.
    pub fn combine(self, other: SrcLoc) -> (r: SrcLoc)
        requires
            pos_le(self@.end_line, self@.end_col, other@.start_line, other@.start_col),
        ensures
            r@ == (SpanV {
                start_line: self@.start_line,
                start_col: self@.start_col,
                end_line: other@.end_line,
                end_col: other@.end_col,
                abs_start: self@.abs_start,
                abs_end: other@.abs_end,
            }),
    {
        SrcLoc {
            start_line: self.start_line,
            start_col: self.start_col,
            end_line: other.end_line,
            end_col: other.end_col,
            abs_start: self.abs_start,
            abs_end: other.abs_end,
        }
    }
}

/// The character for one decimal digit.
pub open spec fn digit_char(d: nat) -> char {
    if d == 0 {
        '0'
    } else if d == 1 {
        '1'
    } else if d == 2 {
        '2'
    } else if d == 3 {
        '3'
    } else if d == 4 {
        '4'
    } else if d == 5 {
        '5'
    } else if d == 6 {
        '6'
    } else if d == 7 {
        '7'
    } else if d == 8 {
        '8'
    } else {
        '9'
    }
}

/// The decimal digits of `n`, most significant first.
pub open spec fn dec_spec(n: nat) -> Seq<char>
    decreases n,
{
    if n < 10 {
        seq![digit_char(n)]
    } else {
        dec_spec(n / 10).push(digit_char(n % 10))
    }
}

/// The human-readable form of a location: `line:col` for a zero-width
/// span, `line:col-col` within one line, `line:col-line:col` across lines.
pub open spec fn render_spec(s: SpanV) -> Seq<char> {
    let head = dec_spec(s.start_line as nat) + seq![':'] + dec_spec(s.start_col as nat);
    if s.start_line == s.end_line && s.start_col == s.end_col {
        head
    } else if s.start_line == s.end_line {
        head + seq!['-'] + dec_spec(s.end_col as nat)
    } else {
        head + seq!['-'] + dec_spec(s.end_line as nat) + seq![':'] + dec_spec(s.end_col as nat)
    }
}

fn push_dec(out: &mut Vec<char>, n: usize)
    ensures
        final(out)@ == old(out)@ + dec_spec(n as nat),
    decreases n,
{
    let ghost o0 = out@;
    if n >= 10 {
        push_dec(out, n / 10);
    }
    let d = n % 10;
    let c = if d == 0 {
        '0'
    } else if d == 1 {
        '1'
    } else if d == 2 {
        '2'
    } else if d == 3 {
        '3'
    } else if d == 4 {
        '4'
    } else if d == 5 {
        '5'
    } else if d == 6 {
        '6'
    } else if d == 7 {
        '7'
    } else if d == 8 {
        '8'
    } else {
        '9'
    };
    out.push(c);
    proof {
        assert(c == digit_char((n % 10) as nat));
        if n < 10 {
            assert(o0 + dec_spec(n as nat) =~= o0.push(c));
        } else {
            assert(o0 + dec_spec(n as nat) =~= (o0 + dec_spec((n / 10) as nat)).push(c));
        }
    }
}

/// Relies on `String`'s collecting `FromIterator`: the string holds
/// exactly the characters of the vector, in order.
#[verifier::external_body]
fn string_of(chars: &Vec<char>) -> (r: String)
    ensures
        r@ == chars@,
{
    chars.iter().collect()
}

impl SrcLoc {
    /// The human-readable form of this location, for diagnostics.
    pub fn render(&self) -> (r: String)
        ensures
            r@ == render_spec(self@),
    {
        let mut out: Vec<char> = Vec::new();
        push_dec(&mut out, self.start_line);
        out.push(':');
        push_dec(&mut out, self.start_col);
        if self.start_line == self.end_line && self.start_col == self.end_col {
        } else if self.start_line == self.end_line {
            out.push('-');
            push_dec(&mut out, self.end_col);
        } else {
            out.push('-');
            push_dec(&mut out, self.end_line);
            out.push(':');
            push_dec(&mut out, self.end_col);
        }
        proof {
            assert(out@ =~= render_spec(self@));
        }
        string_of(&out)
    }
}

impl PartialOrd for SrcLoc {
    /// Locations are ordered by their start position alone, line first.
    fn partial_cmp(&self, other: &Self) -> (r: Option<core::cmp::Ordering>) {
        if self.start_line == other.start_line {
            if self.start_col < other.start_col {
                Some(core::cmp::Ordering::Less)
            } else if self.start_col == other.start_col {
                Some(core::cmp::Ordering::Equal)
            } else {
                Some(core::cmp::Ordering::Greater)
            }
        } else if self.start_line < other.start_line {
            Some(core::cmp::Ordering::Less)
        } else {
            Some(core::cmp::Ordering::Greater)
        }
    }
}

impl vstd::std_specs::cmp::PartialOrdSpecImpl for SrcLoc {
    open spec fn obeys_partial_cmp_spec() -> bool {
        true
    }

    open spec fn partial_cmp_spec(&self, other: &Self) -> Option<core::cmp::Ordering> {
        if self.start_line == other.start_line {
            if self.start_col < other.start_col {
                Some(core::cmp::Ordering::Less)
            } else if self.start_col == other.start_col {
                Some(core::cmp::Ordering::Equal)
            } else {
                Some(core::cmp::Ordering::Greater)
            }
        } else if self.start_line < other.start_line {
            Some(core::cmp::Ordering::Less)
        } else {
            Some(core::cmp::Ordering::Greater)
        }
    }
}

} // verus!

//! The mathematical model of the scanning engine: what a single pull
//! produces, what driving a nested rule set to completion produces, and
//! what a full scan yields. The executable engine in `lexer` is proved to
//! return exactly what these functions say.

use vstd::prelude::*;
use crate::lex_buf::{
    lemma_inv_advanced, lemma_lc_advance_ge, lemma_lc_advance_push, BufV,
};
use crate::src_loc::{pos_le, SpanV};
use crate::rules::{first_match_spec, lemma_first_match_len, Action, Outcome, RuleV};

verus! {

/// A scanning error, as a mathematical value.
pub enum ErrV {
    /// No rule matched at the current position and input remained: the
    /// offending character at its (line, column) position.
    Unmatched { ch: char, line: int, col: int },
    /// A single token was demanded from a stream that had already ended.
    Empty,
}

/// What one pull of a scanner produces: a token with its span, the quiet
/// end of the input, a permanent stop, or an error. Each carries the
/// cursor as the pull leaves it.
pub enum Pulled<T> {
    Item { t: T, span: SpanV, b: BufV },
    End { b: BufV },
    Halt { b: BufV },
    Fail { err: ErrV, b: BufV },
}

impl<T> Pulled<T> {
    /// The cursor as the pull leaves it.
    pub open spec fn buf(self) -> BufV {
        match self {
            Pulled::Item { b, .. } => b,
            Pulled::End { b } => b,
            Pulled::Halt { b } => b,
            Pulled::Fail { b, .. } => b,
        }
    }
}

/// The remaining length of a cursor, clamped below at zero so that it can
/// serve as a termination measure.
pub open spec fn rlen(b: BufV) -> int {
    if b.rest_len() < 0 {
        0
    } else {
        b.rest_len()
    }
}

/// Rank of the exhausted flag in the termination measure: observing the
/// end of input is itself one step of progress.
pub open spec fn empty_rank(b: BufV) -> int {
    if b.empty {
        0
    } else {
        1
    }
}

/// Strict progress between cursors: characters were consumed, or the end
/// of input was observed.
pub open spec fn mlt(a: BufV, b: BufV) -> bool {
    rlen(a) < rlen(b) || (rlen(a) == rlen(b) && a.empty && !b.empty)
}

/// Weak progress: strict progress or an unchanged measure.
pub open spec fn mle(a: BufV, b: BufV) -> bool {
    mlt(a, b) || (rlen(a) == rlen(b) && a.empty == b.empty)
}

/// A grammar is a list of rule sets; actions address other rule sets by
/// index. Well-formed: every such index is in range, and end-of-input
/// rules act directly (they cannot hand the cursor to a nested set).
pub open spec fn grammar_wf<T>(g: Seq<Seq<RuleV<T>>>) -> bool {
    forall|j: int| 0 <= j < g.len() ==> crate::rules::set_wf(#[trigger] g[j], g.len() as int)
}

/// One pull of the scanner running rule set `j` of grammar `g` over
/// cursor `b`.
///
/// Exactly as the engine behaves: if the end of input has already been
/// observed, the stream has ended. Otherwise, when the remainder is empty,
/// the exhausted flag is set but one further pass is made, so that an
/// end-of-input rule may still fire (the one-shot grace step). The first
/// rule whose pattern matches wins; the cursor advances past the match and
/// the rule's action decides: emit the token under the span of the match,
/// skip and scan on within the same pull, stop permanently, or run a
/// nested rule set over the advanced cursor first. When no rule matches,
/// the stream ends quietly in the grace step and fails on the offending
/// character otherwise.
///
/// The `mlt` guards on recursive positions are always satisfied (each
/// step consumes characters or sets the flag); they bound the recursion.
pub open spec fn spec_next<T>(g: Seq<Seq<RuleV<T>>>, j: int, b: BufV) -> Pulled<T>
    decreases rlen(b), empty_rank(b), 1int,
{
    if b.empty {
        Pulled::End { b }
    } else {
        let b1 = if b.rest_len() == 0 {
            BufV { empty: true, ..b }
        } else {
            b
        };
        match first_match_spec(g[j], b1.rest()) {
            None => if b1.empty {
                Pulled::End { b: b1 }
            } else {
                Pulled::Fail {
                    err: ErrV::Unmatched { ch: b1.rest()[0], line: b1.line, col: b1.col },
                    b: b1,
                }
            },
            Some(il) => {
                let sp = b1.span_of(il.1);
                let b2 = b1.advanced(il.1);
                match g[j][il.0].act {
                    Action::Do(o) => match o {
                        Outcome::Emit(t) => Pulled::Item { t, span: sp, b: b2 },
                        Outcome::Skip => if mlt(b2, b) {
                            spec_next(g, j, b2)
                        } else {
                            Pulled::End { b: b2 }
                        },
                        Outcome::Stop => Pulled::Halt { b: b2 },
                    },
                    Action::Nested(k, o) => if mlt(b2, b) {
                        let db = spec_deplete(g, k as int, b2);
                        match db.0 {
                            Some(e) => Pulled::Fail { err: e, b: db.1 },
                            None => match o {
                                Outcome::Emit(t) => Pulled::Item { t, span: sp, b: db.1 },
                                Outcome::Skip => if mlt(db.1, b) {
                                    spec_next(g, j, db.1)
                                } else {
                                    Pulled::End { b: db.1 }
                                },
                                Outcome::Stop => Pulled::Halt { b: db.1 },
                            },
                        }
                    } else {
                        Pulled::End { b: b2 }
                    },
                    Action::NestedOnce(k) => if mlt(b2, b) {
                        match spec_next(g, k as int, b2) {
                            Pulled::Item { t, b: b3, .. } => Pulled::Item { t, span: sp, b: b3 },
                            Pulled::End { b: b3 } => Pulled::Fail { err: ErrV::Empty, b: b3 },
                            Pulled::Halt { b: b3 } => Pulled::Fail { err: ErrV::Empty, b: b3 },
                            Pulled::Fail { err, b: b3 } => Pulled::Fail { err, b: b3 },
                        }
                    } else {
                        Pulled::End { b: b2 }
                    },
                }
            },
        }
    }
}

/// Driving rule set `k` to completion over cursor `b`, discarding what it
/// yields: ends quietly at the end of input or at a stop (a nested stop
/// terminates only the nested scanner), and propagates errors.
pub open spec fn spec_deplete<T>(g: Seq<Seq<RuleV<T>>>, k: int, b: BufV) -> (Option<ErrV>, BufV)
    decreases rlen(b), empty_rank(b), 2int,
{
    match spec_next(g, k, b) {
        Pulled::Item { b: b2, .. } => if mlt(b2, b) {
            spec_deplete(g, k, b2)
        } else {
            (None, b2)
        },
        Pulled::End { b: b2 } => (None, b2),
        Pulled::Halt { b: b2 } => (None, b2),
        Pulled::Fail { err, b: b2 } => (Some(err), b2),
    }
}

/// The full stream a scanner yields from cursor `b` on: the (token, span)
/// pairs in order, then either a quiet end (`None`) or the error that
/// ended the scan, together with the final cursor.
pub open spec fn spec_run<T>(g: Seq<Seq<RuleV<T>>>, j: int, b: BufV) -> (
    Seq<(T, SpanV)>,
    Option<ErrV>,
    BufV,
)
    decreases rlen(b), empty_rank(b), 3int,
{
    match spec_next(g, j, b) {
        Pulled::Item { t, span, b: b2 } => if mlt(b2, b) {
            let rec = spec_run(g, j, b2);
            (seq![(t, span)] + rec.0, rec.1, rec.2)
        } else {
            (seq![(t, span)], None, b2)
        },
        Pulled::End { b: b2 } => (Seq::empty(), None, b2),
        Pulled::Halt { b: b2 } => (Seq::empty(), None, b2),
        Pulled::Fail { err, b: b2 } => (Seq::empty(), Some(err), b2),
    }
}

/// One span ends at or before another begins, in both (line, column) and
/// absolute order.
pub open spec fn span_le(s1: SpanV, s2: SpanV) -> bool {
    pos_le(s1.end_line, s1.end_col, s2.start_line, s2.start_col) && s1.abs_end <= s2.abs_start
}

/// Every pull leaves the cursor well-formed and further along: the source
/// is unchanged, the position only grows, and a yielded item's span lies
/// between the cursor positions before and after the pull.
pub proof fn lemma_next_props<T>(g: Seq<Seq<RuleV<T>>>, j: int, b: BufV)
    requires
        b.inv(),
    ensures
        ({
            let p = spec_next(g, j, b);
            &&& mle(p.buf(), b)
            &&& p.buf().inv()
            &&& p.buf().src == b.src
            &&& b.pos <= p.buf().pos
            &&& pos_le(b.line, b.col, p.buf().line, p.buf().col)
            &&& (p matches Pulled::Item { span, b: bq, .. } ==> mlt(bq, b) && pos_le(
                b.line,
                b.col,
                span.start_line,
                span.start_col,
            ) && pos_le(span.start_line, span.start_col, span.end_line, span.end_col) && pos_le(
                span.end_line,
                span.end_col,
                bq.line,
                bq.col,
            ) && b.pos <= span.abs_start <= span.abs_end <= bq.pos)
        }),
    decreases rlen(b), empty_rank(b), 1int,
{
    if b.empty {
    } else {
        let b1 = if b.rest_len() == 0 {
            BufV { empty: true, ..b }
        } else {
            b
        };
        match first_match_spec(g[j], b1.rest()) {
            None => {},
            Some(il) => {
                let i = il.0;
                let l = il.1;
                lemma_first_match_len(g[j], b1.rest(), i, l);
                let sp = b1.span_of(l);
                let b2 = b1.advanced(l);
                lemma_inv_advanced(b1, l);
                lemma_lc_advance_ge(b1.line, b1.col, b1.rest().take(l));
                assert(mlt(b2, b));
                if l >= 1 {
                    assert(b1.rest().take(l) =~= b1.rest().take(l - 1).push(b1.rest()[l - 1]));
                    lemma_lc_advance_push(b1.line, b1.col, b1.rest().take(l - 1), b1.rest()[l - 1]);
                    lemma_lc_advance_ge(b1.line, b1.col, b1.rest().take(l - 1));
                } else {
                    assert(b1.rest().take(0) =~= Seq::<char>::empty());
                }
                assert(pos_le(sp.end_line, sp.end_col, b2.line, b2.col));
                match g[j][i].act {
                    Action::Do(o) => match o {
                        Outcome::Emit(_) => {},
                        Outcome::Skip => {
                            lemma_next_props(g, j, b2);
                        },
                        Outcome::Stop => {},
                    },
                    Action::Nested(k, o) => {
                        lemma_deplete_props(g, k as int, b2);
                        let db = spec_deplete(g, k as int, b2);
                        match db.0 {
                            Some(_) => {},
                            None => match o {
                                Outcome::Emit(_) => {},
                                Outcome::Skip => {
                                    assert(mlt(db.1, b));
                                    lemma_next_props(g, j, db.1);
                                },
                                Outcome::Stop => {},
                            },
                        }
                    },
                    Action::NestedOnce(k) => {
                        lemma_next_props(g, k as int, b2);
                    },
                }
            },
        }
    }
}

/// Driving a rule set to completion leaves the cursor well-formed and
/// further along.
pub proof fn lemma_deplete_props<T>(g: Seq<Seq<RuleV<T>>>, k: int, b: BufV)
    requires
        b.inv(),
    ensures
        ({
            let d = spec_deplete(g, k, b);
            &&& mle(d.1, b)
            &&& d.1.inv()
            &&& d.1.src == b.src
            &&& b.pos <= d.1.pos
            &&& pos_le(b.line, b.col, d.1.line, d.1.col)
        }),
    decreases rlen(b), empty_rank(b), 2int,
{
    lemma_next_props(g, k, b);
    match spec_next(g, k, b) {
        Pulled::Item { b: b2, .. } => {
            lemma_deplete_props(g, k, b2);
        },
        _ => {},
    }
}

/// Position monotonicity: in the stream a scan yields, each span ends at
/// or before the next one begins — scanning never goes backward — and the
/// first span does not begin before the cursor's starting position.
pub proof fn lemma_position_monotonic<T>(g: Seq<Seq<RuleV<T>>>, j: int, b: BufV)
    requires
        b.inv(),
    ensures
        ({
            let items = spec_run(g, j, b).0;
            &&& forall|q: int| 0 <= q < items.len() - 1 ==> span_le(#[trigger] items[q].1, items[q + 1].1)
            &&& items.len() > 0 ==> pos_le(
                b.line,
                b.col,
                items[0].1.start_line,
                items[0].1.start_col,
            ) && b.pos <= items[0].1.abs_start
        }),
    decreases rlen(b), empty_rank(b), 3int,
{
    lemma_next_props(g, j, b);
    match spec_next(g, j, b) {
        Pulled::Item { t, span, b: b2 } => {
            lemma_position_monotonic(g, j, b2);
            let rec = spec_run(g, j, b2).0;
            let items = spec_run(g, j, b).0;
            assert(items =~= seq![(t, span)] + rec);
            assert forall|q: int| 0 <= q < items.len() - 1 implies span_le(
                #[trigger] items[q].1,
                items[q + 1].1,
            ) by {
                if q == 0 {
                    if rec.len() > 0 {
                        assert(items[1] == rec[0]);
                        assert(span_le(span, rec[0].1));
                    }
                } else {
                    assert(items[q] == rec[q - 1]);
                    assert(items[q + 1] == rec[q]);
                }
            }
        },
        _ => {},
    }
}

/// First-match-wins: when every rule before `i` fails at the current
/// position, rule `i` matches `l` characters, and its action emits `t`,
/// the pull yields exactly `t` under the span of the match — declaration
/// order decides, no later rule is consulted.
pub proof fn lemma_first_match_wins<T>(g: Seq<Seq<RuleV<T>>>, j: int, b: BufV, i: int, t: T)
    requires
        b.inv(),
        !b.empty,
        b.rest_len() > 0,
        0 <= j < g.len(),
        0 <= i < g[j].len(),
        crate::pattern::spec_match_len(g[j][i].pat, b.rest()) is Some,
        forall|k: int|
            0 <= k < i ==> crate::pattern::spec_match_len(#[trigger] g[j][k].pat, b.rest()) is None,
        g[j][i].act == Action::Do(Outcome::Emit(t)),
    ensures
        ({
            let l = crate::pattern::spec_match_len(g[j][i].pat, b.rest()).unwrap();
            spec_next(g, j, b) == (Pulled::Item { t, span: b.span_of(l), b: b.advanced(l) })
        }),
{
    let l = crate::pattern::spec_match_len(g[j][i].pat, b.rest()).unwrap();
    crate::rules::lemma_first_match_at(g[j], b.rest(), i, l);
}

} // verus!

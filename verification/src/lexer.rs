//! The scanner: the executable evaluation loop over a grammar of rule
//! sets and a shared cursor, proved to produce exactly the stream that
//! the model in [`crate::semantics`] describes.

use vstd::prelude::*;
use crate::lex_buf::{BufV, LexBuf};
use crate::rules::{g_of, rule_ok, set_wf, Action, BuildError, Outcome, RuleSet, RuleV};
use crate::semantics::{
    empty_rank, grammar_wf, lemma_next_props, mle, mlt, rlen, spec_deplete, spec_next, spec_run,
    ErrV, Pulled,
};
use crate::src_loc::{SpanV, SrcLoc};

verus! {

/// A scanning error reported to the caller of a pull.
#[derive(Clone, Copy, Debug, PartialEq, Eq, Structural)]
pub enum LexError {
    /// No rule matched at the current position and input remained: the
    /// offending character at its (line, column) position. Scanning stops;
    /// tokens already yielded remain valid.
    UnmatchedInput { ch: char, line: usize, col: usize },
    /// A single token was demanded from a stream that had already ended.
    EmptyStreamAccess,
}

impl View for LexError {
    type V = ErrV;

    open spec fn view(&self) -> ErrV {
        match self {
            LexError::UnmatchedInput { ch, line, col } => ErrV::Unmatched {
                ch: *ch,
                line: *line as int,
                col: *col as int,
            },
            LexError::EmptyStreamAccess => ErrV::Empty,
        }
    }
}

/// What one pull of the engine produced.
pub(crate) enum PullOut<T> {
    Item(T, SrcLoc),
    End,
    Halted,
    Failed(LexError),
}

/// The engine's result agrees with the model's: same token, span, error
/// and final cursor.
pub(crate) open spec fn pull_matches<T>(p: Pulled<T>, r: PullOut<T>, b: BufV) -> bool {
    match p {
        Pulled::Item { t, span, b: pb } => r matches PullOut::Item(rt, loc) && rt == t && loc@
            == span && b == pb,
        Pulled::End { b: pb } => r is End && b == pb,
        Pulled::Halt { b: pb } => r is Halted && b == pb,
        Pulled::Fail { err, b: pb } => r matches PullOut::Failed(e) && e@ == err && b == pb,
    }
}

/// One pull over rule set `j`: evaluate rules in order at the cursor,
/// consume the first match, run its action, and loop on skips — exactly
/// [`spec_next`].
pub(crate) fn pull<T: Copy>(sets: &Vec<RuleSet<T>>, j: usize, buf: &mut LexBuf) -> (r: PullOut<T>)
    requires
        grammar_wf(g_of(sets@)),
        j < sets@.len(),
        old(buf)@.inv(),
    ensures
        final(buf)@.inv(),
        mle(final(buf)@, old(buf)@),
        pull_matches(spec_next(g_of(sets@), j as int, old(buf)@), r, final(buf)@),
    decreases rlen(buf@), empty_rank(buf@), 1int,
{
    let ghost g = g_of(sets@);
    let ghost b0 = buf@;
    loop
        invariant
            b0 == old(buf)@,
            grammar_wf(g),
            g == g_of(sets@),
            g.len() == sets@.len(),
            j < sets@.len(),
            buf@.inv(),
            mle(buf@, b0),
            spec_next(g, j as int, b0) == spec_next(g, j as int, buf@),
        decreases rlen(buf@), empty_rank(buf@),
    {
        let ghost bit = buf@;
        proof {
            assert(g[j as int] == sets@[j as int]@);
        }
        if buf.exhausted() {
            return PullOut::End;
        }
        if buf.rest_len() == 0 {
            buf.mark_exhausted();
        }
        let ghost b1 = buf@;
        proof {
            assert(b1 == (if bit.rest_len() == 0 {
                BufV { empty: true, ..bit }
            } else {
                bit
            }));
        }
        match sets[j].first_match(buf) {
            None => {
                if buf.exhausted() {
                    return PullOut::End;
                } else {
                    let ch = buf.peek();
                    let line = buf.line();
                    let col = buf.col();
                    return PullOut::Failed(LexError::UnmatchedInput { ch, line, col });
                }
            },
            Some((i, l)) => {
                proof {
                    crate::rules::lemma_first_match_len(
                        g[j as int],
                        b1.rest(),
                        i as int,
                        l as int,
                    );
                }
                let loc = buf.advance(l);
                let ghost b2 = buf@;
                proof {
                    assert(b2 == b1.advanced(l as int));
                    assert(l == 0 ==> b1.empty && !bit.empty);
                    assert(mlt(b2, bit));
                }
                let act = sets[j].rule_action(i);
                proof {
                    assert(rule_ok(g[j as int][i as int], g.len() as int));
                    assert(act !is Do ==> g[j as int][i as int].pat !is EndOfInput);
                    assert(act !is Do ==> l >= 1);
                }
                match act {
                    Action::Do(o) => match o {
                        Outcome::Emit(t) => {
                            return PullOut::Item(t, loc);
                        },
                        Outcome::Skip => {
                            proof {
                                assert(spec_next(g, j as int, bit) == spec_next(g, j as int, b2));
                            }
                        },
                        Outcome::Stop => {
                            return PullOut::Halted;
                        },
                    },
                    Action::Nested(k, o) => {
                        match run_deplete(sets, k, buf) {
                            Err(e) => {
                                return PullOut::Failed(e);
                            },
                            Ok(()) => {
                                let ghost b3 = buf@;
                                proof {
                                    assert(spec_deplete(g, k as int, b2).1 == b3);
                                    assert(mlt(b3, bit));
                                }
                                match o {
                                    Outcome::Emit(t) => {
                                        return PullOut::Item(t, loc);
                                    },
                                    Outcome::Skip => {
                                        proof {
                                            assert(spec_next(g, j as int, bit) == spec_next(
                                                g,
                                                j as int,
                                                b3,
                                            ));
                                        }
                                    },
                                    Outcome::Stop => {
                                        return PullOut::Halted;
                                    },
                                }
                            },
                        }
                    },
                    Action::NestedOnce(k) => {
                        match pull(sets, k, buf) {
                            PullOut::Item(t, _) => {
                                return PullOut::Item(t, loc);
                            },
                            PullOut::End => {
                                return PullOut::Failed(LexError::EmptyStreamAccess);
                            },
                            PullOut::Halted => {
                                return PullOut::Failed(LexError::EmptyStreamAccess);
                            },
                            PullOut::Failed(e) => {
                                return PullOut::Failed(e);
                            },
                        }
                    },
                }
            },
        }
    }
}

/// Drive rule set `k` to completion over the cursor, discarding what it
/// yields — exactly [`spec_deplete`].
pub(crate) fn run_deplete<T: Copy>(sets: &Vec<RuleSet<T>>, k: usize, buf: &mut LexBuf) -> (r:
    Result<(), LexError>)
    requires
        grammar_wf(g_of(sets@)),
        k < sets@.len(),
        old(buf)@.inv(),
    ensures
        final(buf)@.inv(),
        mle(final(buf)@, old(buf)@),
        ({
            let d = spec_deplete(g_of(sets@), k as int, old(buf)@);
            final(buf)@ == d.1 && (match r {
                Ok(()) => d.0 is None,
                Err(e) => d.0 == Some(e@),
            })
        }),
    decreases rlen(buf@), empty_rank(buf@), 2int,
{
    let ghost g = g_of(sets@);
    let ghost b0 = buf@;
    loop
        invariant
            b0 == old(buf)@,
            grammar_wf(g),
            g == g_of(sets@),
            k < sets@.len(),
            buf@.inv(),
            mle(buf@, b0),
            spec_deplete(g, k as int, b0) == spec_deplete(g, k as int, buf@),
        decreases rlen(buf@), empty_rank(buf@),
    {
        let ghost bp = buf@;
        match pull(sets, k, buf) {
            PullOut::Item(_, _) => {
                proof {
                    lemma_next_props(g, k as int, bp);
                    assert(mlt(buf@, bp));
                    assert(spec_deplete(g, k as int, bp) == spec_deplete(g, k as int, buf@));
                }
            },
            PullOut::End => {
                return Ok(());
            },
            PullOut::Halted => {
                return Ok(());
            },
            PullOut::Failed(e) => {
                return Err(e);
            },
        }
    }
}

/// Determinism: what a scan yields is a function of the grammar, the
/// start set and the cursor alone. Two scanners built alike — equal
/// grammars, equal start sets, equal cursors — yield the identical
/// sequence of (token, span) pairs with the identical ending, however
/// often the scan is repeated.
pub proof fn lemma_scan_deterministic<T>(a: Lexer<T>, b: Lexer<T>)
    requires
        a.grammar() == b.grammar(),
        a.start_set() == b.start_set(),
        a.cursor() == b.cursor(),
    ensures
        spec_run(a.grammar(), a.start_set(), a.cursor()) == spec_run(
            b.grammar(),
            b.start_set(),
            b.cursor(),
        ),
{
}

/// A token vector with its spans agrees with a model stream, element by
/// element.
pub open spec fn items_match<T>(v: Seq<(T, SrcLoc)>, items: Seq<(T, SpanV)>) -> bool {
    v.len() == items.len() && forall|q: int|
        0 <= q < v.len() ==> (#[trigger] v[q]).0 == items[q].0 && v[q].1@ == items[q].1
}

/// A bare token vector agrees with the tokens of a model stream.
pub open spec fn tokens_match<T>(v: Seq<T>, items: Seq<(T, SpanV)>) -> bool {
    v.len() == items.len() && forall|q: int| 0 <= q < v.len() ==> #[trigger] v[q] == items[q].0
}

/// The model view of collected (token, location) pairs.
pub open spec fn view_items<T>(v: Seq<(T, SrcLoc)>) -> Seq<(T, SpanV)> {
    v.map_values(|p: (T, SrcLoc)| (p.0, p.1@))
}

/// A scanner: a grammar of rule sets, the index of the set it scans with,
/// and the cursor over the source. It yields (token, location) pairs until
/// the input ends, a rule stops it, or no rule matches; the stream is
/// single-pass and, once ended, stays ended.
pub struct Lexer<T> {
    sets: Vec<RuleSet<T>>,
    start: usize,
    buf: LexBuf,
    stopped: bool,
}

impl<T> Lexer<T> {
    /// The mathematical grammar this scanner evaluates.
    pub closed spec fn grammar(&self) -> Seq<Seq<RuleV<T>>> {
        g_of(self.sets@)
    }

    /// The index of the rule set this scanner scans with.
    pub closed spec fn start_set(&self) -> int {
        self.start as int
    }

    /// The cursor's mathematical value.
    pub closed spec fn cursor(&self) -> BufV {
        self.buf@
    }

    /// Whether a stop or an error has permanently ended this scanner.
    pub closed spec fn is_stopped(&self) -> bool {
        self.stopped
    }

    /// A scanner is well-formed when its cursor is, its grammar is, and
    /// its start index is in range.
    pub open spec fn wf(&self) -> bool {
        &&& self.cursor().inv()
        &&& grammar_wf(self.grammar())
        &&& 0 <= self.start_set() < self.grammar().len()
    }
}

impl<T: Copy> Lexer<T> {
    /// Create a scanner from a grammar of rule sets, the index of the set
    /// to scan with, and a cursor over the source. Refused when the start
    /// index or any nested-action index names no rule set.
    pub fn new(sets: Vec<RuleSet<T>>, start: usize, buf: LexBuf) -> (r: Result<Lexer<T>, BuildError>)
        requires
            buf@.inv(),
        ensures
            start < sets@.len() && grammar_wf(g_of(sets@)) ==> (r matches Ok(lx) && lx.grammar()
                == g_of(sets@) && lx.start_set() == start as int && lx.cursor() == buf@
                && !lx.is_stopped() && lx.wf()),
            !(start < sets@.len() && grammar_wf(g_of(sets@))) ==> r == Err::<Lexer<T>, BuildError>(
                BuildError::NoSuchRuleSet,
            ),
    {
        let ghost g = g_of(sets@);
        let n = sets.len();
        if start >= n {
            return Err(BuildError::NoSuchRuleSet);
        }
        let mut j: usize = 0;
        while j < n
            invariant
                g == g_of(sets@),
                n == sets@.len(),
                g.len() == n,
                j <= n,
                forall|q: int| 0 <= q < j ==> set_wf(#[trigger] g[q], n as int),
                forall|q: int| 0 <= q < n ==> g[q] == sets@[q]@,
            decreases n - j,
        {
            if !sets[j].check_wf(n) {
                proof {
                    assert(!set_wf(g[j as int], g.len() as int));
                }
                return Err(BuildError::NoSuchRuleSet);
            }
            j = j + 1;
        }
        Ok(Lexer { sets, start, buf, stopped: false })
    }

    /// One pull: the next (token, location) pair, `Ok(None)` when the
    /// stream has ended (end of input reached, or a rule stopped the
    /// scanner), or the error that ended the scan. After a stop or an
    /// error the stream stays ended: every later pull returns `Ok(None)`
    /// and leaves the scanner untouched.
    pub fn next(&mut self) -> (r: Result<Option<(T, SrcLoc)>, LexError>)
        requires
            old(self).wf(),
        ensures
            final(self).wf(),
            final(self).grammar() == old(self).grammar(),
            final(self).start_set() == old(self).start_set(),
            old(self).is_stopped() ==> r == Ok::<Option<(T, SrcLoc)>, LexError>(None)
                && final(self).cursor() == old(self).cursor() && final(self).is_stopped(),
            !old(self).is_stopped() ==> match spec_next(
                old(self).grammar(),
                old(self).start_set(),
                old(self).cursor(),
            ) {
                Pulled::Item { t, span, b } => r matches Ok(Some(p)) && p.0 == t && p.1@ == span
                    && final(self).cursor() == b && !final(self).is_stopped(),
                Pulled::End { b } => r == Ok::<Option<(T, SrcLoc)>, LexError>(None)
                    && final(self).cursor() == b && !final(self).is_stopped(),
                Pulled::Halt { b } => r == Ok::<Option<(T, SrcLoc)>, LexError>(None)
                    && final(self).cursor() == b && final(self).is_stopped(),
                Pulled::Fail { err, b } => r matches Err(e) && e@ == err && final(self).cursor()
                    == b && final(self).is_stopped(),
            },
    {
        if self.stopped {
            return Ok(None);
        }
        match pull(&self.sets, self.start, &mut self.buf) {
            PullOut::Item(t, loc) => Ok(Some((t, loc))),
            PullOut::End => Ok(None),
            PullOut::Halted => {
                self.stopped = true;
                Ok(None)
            },
            PullOut::Failed(e) => {
                self.stopped = true;
                Err(e)
            },
        }
    }

    /// Like [`Lexer::next`], stripping away the location.
    pub fn next_token(&mut self) -> (r: Result<Option<T>, LexError>)
        requires
            old(self).wf(),
        ensures
            final(self).wf(),
            final(self).grammar() == old(self).grammar(),
            final(self).start_set() == old(self).start_set(),
            old(self).is_stopped() ==> r == Ok::<Option<T>, LexError>(None)
                && final(self).cursor() == old(self).cursor() && final(self).is_stopped(),
            !old(self).is_stopped() ==> match spec_next(
                old(self).grammar(),
                old(self).start_set(),
                old(self).cursor(),
            ) {
                Pulled::Item { t, b, .. } => r == Ok::<Option<T>, LexError>(Some(t))
                    && final(self).cursor() == b && !final(self).is_stopped(),
                Pulled::End { b } => r == Ok::<Option<T>, LexError>(None) && final(self).cursor()
                    == b && !final(self).is_stopped(),
                Pulled::Halt { b } => r == Ok::<Option<T>, LexError>(None) && final(self).cursor()
                    == b && final(self).is_stopped(),
                Pulled::Fail { err, b } => r matches Err(e) && e@ == err && final(self).cursor()
                    == b && final(self).is_stopped(),
            },
    {
        match self.next() {
            Ok(Some(p)) => Ok(Some(p.0)),
            Ok(None) => Ok(None),
            Err(e) => Err(e),
        }
    }

    /// Consume the scanner and return its single next (token, location)
    /// pair. Asking an ended stream for a token is an
    /// [`LexError::EmptyStreamAccess`] error.
    pub fn once(self) -> (r: Result<(T, SrcLoc), LexError>)
        requires
            self.wf(),
        ensures
            self.is_stopped() ==> r == Err::<(T, SrcLoc), LexError>(LexError::EmptyStreamAccess),
            !self.is_stopped() ==> match spec_next(
                self.grammar(),
                self.start_set(),
                self.cursor(),
            ) {
                Pulled::Item { t, span, .. } => r matches Ok(p) && p.0 == t && p.1@ == span,
                Pulled::End { .. } => r == Err::<(T, SrcLoc), LexError>(
                    LexError::EmptyStreamAccess,
                ),
                Pulled::Halt { .. } => r == Err::<(T, SrcLoc), LexError>(
                    LexError::EmptyStreamAccess,
                ),
                Pulled::Fail { err, .. } => r matches Err(e) && e@ == err,
            },
    {
        let mut lx = self;
        match lx.next() {
            Ok(Some(p)) => Ok(p),
            Ok(None) => Err(LexError::EmptyStreamAccess),
            Err(e) => Err(e),
        }
    }

    /// Consume the scanner and return its single next token.
    pub fn once_token(self) -> (r: Result<T, LexError>)
        requires
            self.wf(),
        ensures
            self.is_stopped() ==> r == Err::<T, LexError>(LexError::EmptyStreamAccess),
            !self.is_stopped() ==> match spec_next(
                self.grammar(),
                self.start_set(),
                self.cursor(),
            ) {
                Pulled::Item { t, .. } => r == Ok::<T, LexError>(t),
                Pulled::End { .. } => r == Err::<T, LexError>(LexError::EmptyStreamAccess),
                Pulled::Halt { .. } => r == Err::<T, LexError>(LexError::EmptyStreamAccess),
                Pulled::Fail { err, .. } => r matches Err(e) && e@ == err,
            },
    {
        match self.once() {
            Ok(p) => Ok(p.0),
            Err(e) => Err(e),
        }
    }

    /// Collect the whole stream into a vector of (token, location) pairs:
    /// exactly the stream the model describes, or the error that ended
    /// the scan.
    pub fn into_vec(self) -> (r: Result<Vec<(T, SrcLoc)>, LexError>)
        requires
            self.wf(),
        ensures
            self.is_stopped() ==> (r matches Ok(v) && v@.len() == 0),
            !self.is_stopped() ==> ({
                let run = spec_run(self.grammar(), self.start_set(), self.cursor());
                match run.1 {
                    None => r matches Ok(v) && items_match(v@, run.0),
                    Some(e) => r matches Err(err) && err@ == e,
                }
            }),
    {
        let ghost g0 = self.grammar();
        let ghost j0 = self.start_set();
        let ghost c0 = self.cursor();
        let Lexer { sets, start, mut buf, stopped } = self;
        let mut out: Vec<(T, SrcLoc)> = Vec::new();
        if stopped {
            return Ok(out);
        }
        proof {
            assert(view_items(out@) =~= Seq::<(T, SpanV)>::empty());
            assert(view_items(out@) + spec_run(g0, j0, c0).0 =~= spec_run(g0, j0, c0).0);
        }
        loop
            invariant
                g0 == self.grammar(),
                j0 == self.start_set(),
                c0 == self.cursor(),
                !self.is_stopped(),
                g0 == g_of(sets@),
                grammar_wf(g0),
                g0.len() == sets@.len(),
                start < sets@.len(),
                start as int == j0,
                buf@.inv(),
                spec_run(g0, j0, c0).1 == spec_run(g0, j0, buf@).1,
                spec_run(g0, j0, c0).0 == view_items(out@) + spec_run(g0, j0, buf@).0,
            decreases rlen(buf@), empty_rank(buf@),
        {
            let ghost bp = buf@;
            let ghost outp = out@;
            match pull(&sets, start, &mut buf) {
                PullOut::Item(t, loc) => {
                    proof {
                        lemma_next_props(g0, j0, bp);
                        assert(mlt(buf@, bp));
                    }
                    out.push((t, loc));
                    proof {
                        assert(view_items(out@) =~= view_items(outp).push((t, loc@)));
                        assert(spec_run(g0, j0, bp).0 =~= seq![(t, loc@)] + spec_run(
                            g0,
                            j0,
                            buf@,
                        ).0);
                        assert(view_items(outp) + (seq![(t, loc@)] + spec_run(g0, j0, buf@).0)
                            =~= view_items(out@) + spec_run(g0, j0, buf@).0);
                    }
                },
                PullOut::End => {
                    proof {
                        assert(spec_run(g0, j0, bp).0 =~= Seq::<(T, SpanV)>::empty());
                        assert(spec_run(g0, j0, c0).0 =~= view_items(out@));
                        assert(items_match(out@, spec_run(g0, j0, c0).0));
                    }
                    return Ok(out);
                },
                PullOut::Halted => {
                    proof {
                        assert(spec_run(g0, j0, bp).0 =~= Seq::<(T, SpanV)>::empty());
                        assert(spec_run(g0, j0, c0).0 =~= view_items(out@));
                        assert(items_match(out@, spec_run(g0, j0, c0).0));
                    }
                    return Ok(out);
                },
                PullOut::Failed(e) => {
                    return Err(e);
                },
            }
        }
    }

    /// Collect the whole stream into a vector of tokens, stripping away
    /// the locations.
    pub fn into_token_vec(self) -> (r: Result<Vec<T>, LexError>)
        requires
            self.wf(),
        ensures
            self.is_stopped() ==> (r matches Ok(v) && v@.len() == 0),
            !self.is_stopped() ==> ({
                let run = spec_run(self.grammar(), self.start_set(), self.cursor());
                match run.1 {
                    None => r matches Ok(v) && tokens_match(v@, run.0),
                    Some(e) => r matches Err(err) && err@ == e,
                }
            }),
    {
        let ghost run = spec_run(self.grammar(), self.start_set(), self.cursor());
        let ghost was_stopped = self.is_stopped();
        match self.into_vec() {
            Ok(v) => {
                let n = v.len();
                let mut out: Vec<T> = Vec::new();
                let mut i: usize = 0;
                while i < n
                    invariant
                        n == v@.len(),
                        i <= n,
                        out@.len() == i,
                        forall|q: int| 0 <= q < i ==> #[trigger] out@[q] == v@[q].0,
                    decreases n - i,
                {
                    let p = v[i];
                    out.push(p.0);
                    i = i + 1;
                }
                Ok(out)
            },
            Err(e) => Err(e),
        }
    }

    /// The tokens of the whole stream, in order.
    pub fn tokens(self) -> (r: Result<Vec<T>, LexError>)
        requires
            self.wf(),
        ensures
            self.is_stopped() ==> (r matches Ok(v) && v@.len() == 0),
            !self.is_stopped() ==> ({
                let run = spec_run(self.grammar(), self.start_set(), self.cursor());
                match run.1 {
                    None => r matches Ok(v) && tokens_match(v@, run.0),
                    Some(e) => r matches Err(err) && err@ == e,
                }
            }),
    {
        self.into_token_vec()
    }

    /// Empty the scanner, discarding every token it still yields; reports
    /// the error that ended the scan, if one did.
    pub fn exhaust(self) -> (r: Result<(), LexError>)
        requires
            self.wf(),
        ensures
            self.is_stopped() ==> r is Ok,
            !self.is_stopped() ==> ({
                let run = spec_run(self.grammar(), self.start_set(), self.cursor());
                match run.1 {
                    None => r is Ok,
                    Some(e) => r matches Err(err) && err@ == e,
                }
            }),
    {
        match self.into_vec() {
            Ok(_) => Ok(()),
            Err(e) => Err(e),
        }
    }

    /// Empty the scanner, discarding every token it still yields.
    pub fn empty(self) -> (r: Result<(), LexError>)
        requires
            self.wf(),
        ensures
            self.is_stopped() ==> r is Ok,
            !self.is_stopped() ==> ({
                let run = spec_run(self.grammar(), self.start_set(), self.cursor());
                match run.1 {
                    None => r is Ok,
                    Some(e) => r matches Err(err) && err@ == e,
                }
            }),
    {
        self.exhaust()
    }
}

} // verus!

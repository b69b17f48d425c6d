//! Rules and rule sets. A rule pairs a compiled pattern with an action;
//! a rule set is an ordered list of rules, tried top to bottom, the first
//! whose pattern matches at the current position winning.

use vstd::prelude::*;
use crate::lex_buf::LexBuf;
use crate::pattern::{
    build_anchored, frag_views, re_compile, re_valid, spec_anchored, spec_match_len, Pattern,
    PatternV,
};

verus! {

/// The three sanctioned results of a rule's action: yield a token for the
/// current match, discard the match and continue scanning, or terminate
/// the scanner permanently.
#[derive(Clone, Copy, Debug, PartialEq, Eq, Structural)]
pub enum Outcome<T> {
    Emit(T),
    Skip,
    Stop,
}

/// What a rule does once its pattern has matched and the cursor has
/// advanced past the match.
#[derive(Clone, Copy, Debug, PartialEq, Eq, Structural)]
pub enum Action<T> {
    /// Produce the outcome directly.
    Do(Outcome<T>),
    /// Drive the rule set with the given index over the shared cursor
    /// until it ends or stops, discarding whatever it yields, then produce
    /// the outcome.
    Nested(usize, Outcome<T>),
    /// Pull exactly one token from the rule set with the given index over
    /// the shared cursor and emit that token under this rule's span.
    NestedOnce(usize),
}

/// Mathematical value of a [`Rule`]: the pattern's value together with the
/// action, which is already plain data.
pub struct RuleV<T> {
    pub pat: PatternV,
    pub act: Action<T>,
}

/// A single (pattern, action) pair.
pub struct Rule<T> {
    pattern: Pattern,
    action: Action<T>,
}

impl<T> View for Rule<T> {
    type V = RuleV<T>;

    closed spec fn view(&self) -> RuleV<T> {
        RuleV { pat: self.pattern@, act: self.action }
    }
}

/// Why declaring a rule or a scanner was refused.
#[derive(Clone, Copy, Debug, PartialEq, Eq, Structural)]
pub enum BuildError {
    /// A pattern needs one or more fragment operands.
    NoOperands,
    /// The regular-expression engine refused the assembled pattern.
    InvalidPattern,
    /// An end-of-input rule cannot hand the cursor to a nested rule set:
    /// there is nothing left to consume.
    NestedAtEndOfInput,
    /// An action named a rule set index that does not exist.
    NoSuchRuleSet,
}

/// An ordered list of rules. Order is significant and immutable once the
/// set is handed to a scanner: declaration order decides ties.
pub struct RuleSet<T> {
    rules: Vec<Rule<T>>,
}

impl<T> View for RuleSet<T> {
    type V = Seq<RuleV<T>>;

    closed spec fn view(&self) -> Seq<RuleV<T>> {
        self.rules@.map_values(|r: Rule<T>| r@)
    }
}

/// A rule is admissible within a grammar of `n` rule sets: nested actions
/// address an existing rule set, and an end-of-input rule acts directly.
pub open spec fn rule_ok<T>(r: RuleV<T>, n: int) -> bool {
    &&& match r.act {
        Action::Do(_) => true,
        Action::Nested(k, _) => (k as int) < n,
        Action::NestedOnce(k) => (k as int) < n,
    }
    &&& (r.pat is EndOfInput ==> r.act is Do)
}

/// Every rule of the list is admissible within a grammar of `n` rule sets.
pub open spec fn set_wf<T>(rules: Seq<RuleV<T>>, n: int) -> bool {
    forall|i: int| 0 <= i < rules.len() ==> rule_ok(#[trigger] rules[i], n)
}

/// The mathematical grammar of a list of rule sets.
pub open spec fn g_of<T>(sets: Seq<RuleSet<T>>) -> Seq<Seq<RuleV<T>>> {
    sets.map_values(|rs: RuleSet<T>| rs@)
}

/// Where in an ordered rule list the first match lies: `Some((i, l))` when
/// rule `i` matches `l` characters and no earlier rule matches at all.
pub open spec fn first_match_spec<T>(rules: Seq<RuleV<T>>, rest: Seq<char>) -> Option<(int, int)>
    decreases rules.len(),
{
    if rules.len() == 0 {
        None
    } else {
        match spec_match_len(rules[0].pat, rest) {
            Some(l) => Some((0int, l)),
            None => match first_match_spec(rules.skip(1), rest) {
                Some(il) => Some((il.0 + 1, il.1)),
                None => None,
            },
        }
    }
}

/// When every rule before `i` fails and rule `i` matches `l` characters,
/// the first match is `(i, l)`.
pub proof fn lemma_first_match_at<T>(rules: Seq<RuleV<T>>, rest: Seq<char>, i: int, l: int)
    requires
        0 <= i < rules.len(),
        spec_match_len(rules[i].pat, rest) == Some(l),
        forall|k: int| 0 <= k < i ==> spec_match_len(rules[k].pat, rest) is None,
    ensures
        first_match_spec(rules, rest) == Some((i, l)),
    decreases i,
{
    if i == 0 {
    } else {
        assert(rules.skip(1)[i - 1] == rules[i]);
        assert(forall|k: int|
            0 <= k < i - 1 ==> rules.skip(1)[k] == rules[k + 1] && spec_match_len(
                rules[k + 1].pat,
                rest,
            ) is None);
        lemma_first_match_at(rules.skip(1), rest, i - 1, l);
    }
}

/// When every rule fails, there is no first match.
pub proof fn lemma_first_match_none<T>(rules: Seq<RuleV<T>>, rest: Seq<char>)
    requires
        forall|k: int| 0 <= k < rules.len() ==> spec_match_len(rules[k].pat, rest) is None,
    ensures
        first_match_spec(rules, rest) is None,
    decreases rules.len(),
{
    if rules.len() > 0 {
        assert(forall|k: int|
            0 <= k < rules.len() - 1 ==> rules.skip(1)[k] == rules[k + 1] && spec_match_len(
                rules[k + 1].pat,
                rest,
            ) is None);
        lemma_first_match_none(rules.skip(1), rest);
    }
}

/// A first match never claims more characters than remain, and a match of
/// zero characters happens only at the end of the input.
pub proof fn lemma_first_match_len<T>(rules: Seq<RuleV<T>>, rest: Seq<char>, i: int, l: int)
    requires
        first_match_spec(rules, rest) == Some((i, l)),
    ensures
        0 <= i < rules.len(),
        spec_match_len(rules[i].pat, rest) == Some(l),
        0 <= l <= rest.len(),
        l == 0 ==> rest.len() == 0,
    decreases rules.len(),
{
    if rules.len() > 0 {
        match spec_match_len(rules[0].pat, rest) {
            Some(_) => {},
            None => {
                let il = first_match_spec(rules.skip(1), rest).unwrap();
                lemma_first_match_len(rules.skip(1), rest, il.0, il.1);
                assert(rules.skip(1)[i - 1] == rules[i]);
            },
        }
    }
}

impl<T: Copy> RuleSet<T> {
    /// An empty rule set.
    pub fn new() -> (r: RuleSet<T>)
        ensures
            r@ == Seq::<RuleV<T>>::empty(),
    {
        let r = RuleSet { rules: Vec::new() };
        proof {
            assert(r@ =~= Seq::<RuleV<T>>::empty());
        }
        r
    }

    /// How many rules the set holds.
    pub fn len(&self) -> (r: usize)
        ensures
            r == self@.len(),
    {
        self.rules.len()
    }

    /// Append a rule whose pattern matches any single character.
    pub fn add_wildcard_rule(&mut self, action: Action<T>)
        ensures
            final(self)@ == old(self)@.push(RuleV { pat: PatternV::Wildcard, act: action }),
    {
        self.rules.push(Rule { pattern: Pattern::Wildcard, action });
        proof {
            assert(self@ =~= old(self)@.push(RuleV { pat: PatternV::Wildcard, act: action }));
        }
    }

    /// Append a rule whose pattern matches only the end of the input, with
    /// a zero-length span. Such a rule cannot hand the cursor to a nested
    /// rule set, since there is nothing left for it to consume.
    pub fn add_eof_rule(&mut self, action: Action<T>) -> (r: Result<(), BuildError>)
        ensures
            match action {
                Action::Do(_) => r == Ok::<(), BuildError>(()) && final(self)@ == old(self)@.push(
                    RuleV { pat: PatternV::EndOfInput, act: action },
                ),
                _ => r == Err::<(), BuildError>(BuildError::NestedAtEndOfInput) && final(self)@
                    == old(self)@,
            },
    {
        match action {
            Action::Do(_) => {
                self.rules.push(Rule { pattern: Pattern::EndOfInput, action });
                proof {
                    assert(self@ =~= old(self)@.push(
                        RuleV { pat: PatternV::EndOfInput, act: action },
                    ));
                }
                Ok(())
            },
            _ => Err(BuildError::NestedAtEndOfInput),
        }
    }

    /// Append a rule whose pattern is the anchored concatenation of the
    /// given fragment operands: fragments `A`, `B` compile to `^(A)(B)`.
    /// The pattern is compiled here, once; it is refused when no operand is
    /// given or when the regular-expression engine rejects it.
    pub fn add_regex_rule(&mut self, fragments: &Vec<String>, action: Action<T>) -> (r: Result<
        (),
        BuildError,
    >)
        ensures
            fragments@.len() == 0 ==> r == Err::<(), BuildError>(BuildError::NoOperands)
                && final(self)@ == old(self)@,
            fragments@.len() > 0 && !re_valid(spec_anchored(frag_views(fragments@))) ==> r
                == Err::<(), BuildError>(BuildError::InvalidPattern) && final(self)@ == old(self)@,
            fragments@.len() > 0 && re_valid(spec_anchored(frag_views(fragments@))) ==> r == Ok::<
                (),
                BuildError,
            >(()) && final(self)@ == old(self)@.push(
                RuleV { pat: PatternV::Re(spec_anchored(frag_views(fragments@))), act: action },
            ),
    {
        if fragments.len() == 0 {
            return Err(BuildError::NoOperands);
        }
        let pat = build_anchored(fragments);
        match re_compile(&pat) {
            Some(re) => {
                self.rules.push(Rule { pattern: Pattern::Re(re), action });
                proof {
                    assert(self@ =~= old(self)@.push(
                        RuleV {
                            pat: PatternV::Re(spec_anchored(frag_views(fragments@))),
                            act: action,
                        },
                    ));
                }
                Ok(())
            },
            None => Err(BuildError::InvalidPattern),
        }
    }

    /// The action of the rule at the given position.
    pub(crate) fn rule_action(&self, i: usize) -> (a: Action<T>)
        requires
            i < self@.len(),
        ensures
            a == self@[i as int].act,
    {
        self.rules[i].action
    }

    /// Whether every rule of this set is admissible within a grammar of
    /// `n` rule sets.
    pub(crate) fn check_wf(&self, n: usize) -> (r: bool)
        ensures
            r == set_wf(self@, n as int),
    {
        let m = self.rules.len();
        let mut i: usize = 0;
        while i < m
            invariant
                i <= m,
                m == self.rules@.len(),
                self@.len() == m,
                forall|k: int| 0 <= k < i ==> rule_ok(#[trigger] self@[k], n as int),
                forall|k: int| 0 <= k < m ==> self@[k] == self.rules@[k]@,
            decreases m - i,
        {
            let idx_ok = match self.rules[i].action {
                Action::Do(_) => true,
                Action::Nested(k, _) => k < n,
                Action::NestedOnce(k) => k < n,
            };
            let eof_ok = match (&self.rules[i].pattern, &self.rules[i].action) {
                (Pattern::EndOfInput, Action::Do(_)) => true,
                (Pattern::EndOfInput, _) => false,
                _ => true,
            };
            if !idx_ok || !eof_ok {
                assert(!rule_ok(self@[i as int], n as int));
                return false;
            }
            assert(rule_ok(self@[i as int], n as int));
            i = i + 1;
        }
        true
    }

    /// The first rule of this set whose pattern matches at the cursor's
    /// position, with the matched length in characters.
    pub(crate) fn first_match(&self, buf: &LexBuf) -> (r: Option<(usize, usize)>)
        requires
            buf@.inv(),
        ensures
            r is None ==> first_match_spec(self@, buf@.rest()) is None,
            r matches Some(il) ==> first_match_spec(self@, buf@.rest()) == Some(
                (il.0 as int, il.1 as int),
            ) && il.1 <= buf@.rest_len(),
    {
        let n = self.rules.len();
        let mut i: usize = 0;
        while i < n
            invariant
                buf@.inv(),
                n == self.rules@.len(),
                self@.len() == n,
                i <= n,
                forall|k: int| 0 <= k < i ==> spec_match_len(self@[k].pat, buf@.rest()) is None,
                forall|k: int| 0 <= k < n ==> self@[k] == self.rules@[k]@,
            decreases n - i,
        {
            match self.rules[i].pattern.match_len(buf) {
                Some(l) => {
                    proof {
                        lemma_first_match_at(self@, buf@.rest(), i as int, l as int);
                    }
                    return Some((i, l));
                },
                None => {},
            }
            i = i + 1;
        }
        proof {
            lemma_first_match_none(self@, buf@.rest());
        }
        None
    }
}

} // verus!

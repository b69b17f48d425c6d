//! Compiled matchers tested against the start of the remaining input:
//! anchored regular expressions (built once from literal/fragment operands),
//! the any-single-character wildcard, and the end-of-input marker.
//!
//! The regular-expression primitive itself is an outside capability: the
//! `regex` crate compiles a pattern and reports the leftmost match. What
//! such a match is for a given pattern and text is named by uninterpreted
//! functions; everything the engine does with the reported lengths is
//! verified.

use vstd::prelude::*;
use crate::lex_buf::{chars_of, LexBuf};

verus! {

/// Declares the outside type `regex::Regex` (a compiled regular
/// expression) so that it can stand in fields and signatures; its value is
/// opaque here and is described only by [`regex_model`].
#[verifier::external_type_specification]
#[verifier::external_body]
pub struct ExRegex(regex::Regex);

/// The leftmost match that the pattern finds in the text: `Some((start,
/// len))` in characters, or `None` when the pattern matches nowhere. A
/// compiled regular expression matches as a function of its pattern and the
/// text alone.
pub uninterp spec fn re_find_spec(pattern: Seq<char>, text: Seq<char>) -> Option<(int, int)>;

/// Whether the pattern is one that the regular-expression engine accepts.
pub uninterp spec fn re_valid(pattern: Seq<char>) -> bool;

/// The pattern a compiled regular expression was built from.
pub uninterp spec fn regex_model(re: regex::Regex) -> Seq<char>;

/// Relies on `regex::Regex::new`: compilation succeeds exactly on the
/// patterns the crate accepts (within its default size limit), and the
/// compiled value matches per its pattern.
#[verifier::external_body]
pub(crate) fn re_compile(pattern: &Vec<char>) -> (r: Option<regex::Regex>)
    ensures
        r is Some <==> re_valid(pattern@),
        r matches Some(re) ==> regex_model(re) == pattern@,
{
    let s: String = pattern.iter().collect();
    regex::Regex::new(&s).ok()
}

/// Relies on `regex::Regex::find`: it reports the leftmost match of the
/// pattern in the haystack, as byte offsets on character boundaries within
/// the haystack, here converted to character offsets. The match lies inside
/// the haystack.
#[verifier::external_body]
pub(crate) fn re_find_from(re: &regex::Regex, text: &Vec<char>, from: usize) -> (r: Option<
    (usize, usize),
>)
    requires
        from <= text@.len(),
    ensures
        r is None <==> re_find_spec(regex_model(*re), text@.skip(from as int)) is None,
        r matches Some(sl) ==> re_find_spec(regex_model(*re), text@.skip(from as int)) == Some(
            (sl.0 as int, sl.1 as int),
        ) && sl.0 + sl.1 <= text@.len() - from,
{
    let hay: String = text[from..].iter().collect();
    match re.find(&hay) {
        Some(m) => {
            let start = hay[..m.start()].chars().count();
            let len = m.as_str().chars().count();
            Some((start, len))
        },
        None => None,
    }
}

/// Mathematical value of a [`Pattern`]: the wildcard, the end-of-input
/// marker, or a regular expression given by its pattern string.
pub enum PatternV {
    Wildcard,
    EndOfInput,
    Re(Seq<char>),
}

/// How many characters a pattern matches at the start of the remaining
/// input: the wildcard matches exactly one character of non-empty input,
/// the end-of-input marker matches zero characters of empty input, and a
/// regular expression matches when its leftmost match starts at the first
/// character and consumes at least one.
pub open spec fn spec_match_len(p: PatternV, rest: Seq<char>) -> Option<int> {
    match p {
        PatternV::Wildcard => if rest.len() > 0 {
            Some(1int)
        } else {
            None
        },
        PatternV::EndOfInput => if rest.len() == 0 {
            Some(0int)
        } else {
            None
        },
        PatternV::Re(pat) => match re_find_spec(pat, rest) {
            Some(sl) => if sl.0 == 0 && 0 < sl.1 <= rest.len() {
                Some(sl.1)
            } else {
                None
            },
            None => None,
        },
    }
}

/// A compiled matcher, built once when its rule is declared.
pub enum Pattern {
    /// Matches any single character, including a newline; never matches
    /// empty input.
    Wildcard,
    /// Matches a zero-length span, only when the remaining input is empty.
    EndOfInput,
    /// An anchored regular expression.
    Re(regex::Regex),
}

impl View for Pattern {
    type V = PatternV;

    open spec fn view(&self) -> PatternV {
        match self {
            Pattern::Wildcard => PatternV::Wildcard,
            Pattern::EndOfInput => PatternV::EndOfInput,
            Pattern::Re(re) => PatternV::Re(regex_model(*re)),
        }
    }
}

impl Pattern {
    /// The number of characters this pattern matches at the current
    /// position of the cursor, if it matches at all.
    pub(crate) fn match_len(&self, buf: &LexBuf) -> (r: Option<usize>)
        requires
            buf@.inv(),
        ensures
            r is None <==> spec_match_len(self@, buf@.rest()) is None,
            r matches Some(l) ==> spec_match_len(self@, buf@.rest()) == Some(l as int) && l
                <= buf@.rest_len(),
    {
        match self {
            Pattern::Wildcard => {
                if buf.rest_len() > 0 {
                    Some(1)
                } else {
                    None
                }
            },
            Pattern::EndOfInput => {
                if buf.rest_len() == 0 {
                    Some(0)
                } else {
                    None
                }
            },
            Pattern::Re(re) => {
                let found = re_find_from(re, buf.src_vec(), buf.abs_pos());
                match found {
                    Some((s, l)) => {
                        if s == 0 && l > 0 {
                            Some(l)
                        } else {
                            None
                        }
                    },
                    None => None,
                }
            },
        }
    }
}

/// The fragments of a rule's pattern wrapped in groups and anchored at the
/// start: operands `A`, `B` compile to the single pattern `^(A)(B)`.
pub open spec fn spec_groups(frags: Seq<Seq<char>>) -> Seq<char>
    decreases frags.len(),
{
    if frags.len() == 0 {
        Seq::empty()
    } else {
        seq!['('] + frags[0] + seq![')'] + spec_groups(frags.skip(1))
    }
}

/// The single anchored pattern a rule's fragment operands compile to.
pub open spec fn spec_anchored(frags: Seq<Seq<char>>) -> Seq<char> {
    seq!['^'] + spec_groups(frags)
}

proof fn lemma_groups_snoc(frags: Seq<Seq<char>>, i: int)
    requires
        0 <= i < frags.len(),
    ensures
        spec_groups(frags.take(i + 1)) == spec_groups(frags.take(i)) + seq!['('] + frags[i] + seq![
            ')',
        ],
    decreases i,
{
    if i == 0 {
        assert(frags.take(0) =~= Seq::<Seq<char>>::empty());
        assert(frags.take(1)[0] == frags[0]);
        assert(frags.take(1).skip(1) =~= Seq::<Seq<char>>::empty());
        assert(spec_groups(frags.take(1)) =~= seq!['('] + frags[0] + seq![')']);
    } else {
        lemma_groups_snoc(frags.skip(1), i - 1);
        assert(frags.take(i + 1)[0] == frags[0]);
        assert(frags.take(i + 1).skip(1) =~= frags.skip(1).take(i));
        assert(frags.take(i).skip(1) =~= frags.skip(1).take(i - 1));
        assert(frags.take(i)[0] == frags[0]);
        assert(frags.skip(1)[i - 1] == frags[i]);
        assert(spec_groups(frags.take(i + 1)) =~= spec_groups(frags.take(i)) + seq!['('] + frags[i]
            + seq![')']);
    }
}

/// The views of a vector of fragment strings.
pub open spec fn frag_views(fragments: Seq<String>) -> Seq<Seq<char>> {
    fragments.map_values(|s: String| s@)
}

/// Build the anchored pattern string for a list of fragment operands.
pub(crate) fn build_anchored(fragments: &Vec<String>) -> (r: Vec<char>)
    ensures
        r@ == spec_anchored(frag_views(fragments@)),
{
    let ghost fv = frag_views(fragments@);
    let mut out: Vec<char> = Vec::new();
    out.push('^');
    proof {
        assert(fv.take(0) =~= Seq::<Seq<char>>::empty());
        assert(out@ =~= seq!['^'] + spec_groups(fv.take(0)));
    }
    let mut i: usize = 0;
    while i < fragments.len()
        invariant
            i <= fragments.len(),
            fv == frag_views(fragments@),
            fv.len() == fragments@.len(),
            out@ == seq!['^'] + spec_groups(fv.take(i as int)),
        decreases fragments.len() - i,
    {
        let mut fc = chars_of(fragments[i].as_str());
        out.push('(');
        out.append(&mut fc);
        out.push(')');
        proof {
            lemma_groups_snoc(fv, i as int);
            assert(fv[i as int] == fragments@[i as int]@);
            assert(out@ =~= seq!['^'] + spec_groups(fv.take(i + 1)));
        }
        i = i + 1;
    }
    proof {
        assert(fv.take(fv.len() as int) =~= fv);
    }
    out
}

} // verus!

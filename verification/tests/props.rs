use lexr::{Action, BuildError, LexBuf, LexError, Lexer, Outcome, RuleSet, SrcLoc};

#[derive(Debug, PartialEq, Clone, Copy)]
enum Tok {
    A,
    B,
    W,
    X,
    Y,
    D,
    Eof,
}
use Tok::{A, B, D, Eof, W, X, Y};

fn frags(parts: &[&str]) -> Vec<String> {
    let mut v = Vec::new();
    for p in parts {
        v.push(p.to_string());
    }
    v
}

fn emit(t: Tok) -> Action<Tok> {
    Action::Do(Outcome::Emit(t))
}

fn skip() -> Action<Tok> {
    Action::Do(Outcome::Skip)
}

fn stop() -> Action<Tok> {
    Action::Do(Outcome::Stop)
}

fn word_rules() -> RuleSet<Tok> {
    let mut rs: RuleSet<Tok> = RuleSet::new();
    rs.add_regex_rule(&frags(&[r"\s+"]), skip()).unwrap();
    rs.add_regex_rule(&frags(&[r"[a-z]+"]), emit(W)).unwrap();
    rs
}

#[test]
fn repeated_scans_yield_identical_streams() {
    let run = || -> Vec<(Tok, SrcLoc)> {
        let lx = Lexer::new(vec![word_rules()], 0, LexBuf::new("ab cd\nef")).unwrap();
        lx.into_vec().unwrap()
    };
    let first = run();
    let second = run();
    assert_eq!(first, second);
    assert_eq!(first.len(), 3);
}

#[test]
fn consecutive_spans_never_go_backward() {
    let mut rs: RuleSet<Tok> = RuleSet::new();
    rs.add_regex_rule(&frags(&[r"\s+"]), skip()).unwrap();
    rs.add_regex_rule(&frags(&[r"[a-z]+"]), emit(W)).unwrap();
    rs.add_regex_rule(&frags(&[r"[0-9]+"]), emit(B)).unwrap();
    let lx = Lexer::new(vec![rs], 0, LexBuf::new("ab 12\ncd ef\n34")).unwrap();
    let pairs = lx.into_vec().unwrap();
    assert_eq!(pairs.len(), 5);
    for w in pairs.windows(2) {
        let (e_line, e_col) = w[0].1.end();
        let (s_line, s_col) = w[1].1.start();
        assert!(e_line < s_line || (e_line == s_line && e_col <= s_col));
        assert!(w[0].1.get_abs_loc().1 <= w[1].1.get_abs_loc().0);
    }
}

#[test]
fn wildcard_spans_track_lines_and_columns() {
    let mut rs: RuleSet<Tok> = RuleSet::new();
    rs.add_wildcard_rule(emit(A));
    let lx = Lexer::new(vec![rs], 0, LexBuf::new("ab\ncd")).unwrap();
    let pairs = lx.into_vec().unwrap();
    let locs: Vec<(usize, usize, usize, usize)> = pairs.iter().map(|p| p.1.get_loc()).collect();
    assert_eq!(
        locs,
        vec![(1, 1, 1, 1), (1, 2, 1, 2), (1, 3, 1, 3), (2, 1, 2, 1), (2, 2, 2, 2)]
    );
    let abs: Vec<(usize, usize)> = pairs.iter().map(|p| p.1.get_abs_loc()).collect();
    assert_eq!(abs, vec![(0, 1), (1, 2), (2, 3), (3, 4), (4, 5)]);
}

#[test]
fn earlier_rule_wins_over_later_rule() {
    let mut rs: RuleSet<Tok> = RuleSet::new();
    rs.add_regex_rule(&frags(&["ab"]), emit(X)).unwrap();
    rs.add_regex_rule(&frags(&["a"]), emit(Y)).unwrap();
    rs.add_regex_rule(&frags(&["b"]), emit(B)).unwrap();
    let lx = Lexer::new(vec![rs], 0, LexBuf::new("ab")).unwrap();
    let pairs = lx.into_vec().unwrap();
    assert_eq!(pairs.len(), 1);
    assert_eq!(pairs[0].0, X);
    assert_eq!(pairs[0].1.get_abs_loc(), (0, 2));
}

#[test]
fn skipped_matches_are_transparent() {
    let lx = Lexer::new(vec![word_rules()], 0, LexBuf::new("a b")).unwrap();
    let toks = lx.into_token_vec().unwrap();
    assert_eq!(toks, vec![W, W]);
}

#[test]
fn stop_ends_the_stream_immediately_and_permanently() {
    let mut rs: RuleSet<Tok> = RuleSet::new();
    rs.add_regex_rule(&frags(&["a"]), emit(A)).unwrap();
    rs.add_regex_rule(&frags(&["b"]), stop()).unwrap();
    let mut lx = Lexer::new(vec![rs], 0, LexBuf::new("ab")).unwrap();
    assert_eq!(lx.next_token().unwrap(), Some(A));
    assert_eq!(lx.next_token().unwrap(), None);
    assert_eq!(lx.next_token().unwrap(), None);
    assert_eq!(lx.next_token().unwrap(), None);
}

#[test]
fn grace_step_fires_end_of_input_rule_once() {
    let mut rs: RuleSet<Tok> = RuleSet::new();
    rs.add_eof_rule(emit(Eof)).unwrap();
    let mut lx = Lexer::new(vec![rs], 0, LexBuf::new("")).unwrap();
    assert_eq!(lx.next_token().unwrap(), Some(Eof));
    assert_eq!(lx.next_token().unwrap(), None);
    assert_eq!(lx.next_token().unwrap(), None);
}

#[test]
fn empty_input_without_end_rule_ends_quietly() {
    let rs: RuleSet<Tok> = RuleSet::new();
    let mut lx = Lexer::new(vec![rs], 0, LexBuf::new("")).unwrap();
    assert_eq!(lx.next().unwrap(), None);
    assert_eq!(lx.next().unwrap(), None);
}

#[test]
fn unmatched_input_reports_character_and_position() {
    let mut rs: RuleSet<Tok> = RuleSet::new();
    rs.add_regex_rule(&frags(&["a"]), emit(A)).unwrap();
    let mut lx = Lexer::new(vec![rs], 0, LexBuf::new("abc")).unwrap();
    assert_eq!(lx.next_token().unwrap(), Some(A));
    let err = lx.next_token().unwrap_err();
    assert_eq!(err, LexError::UnmatchedInput { ch: 'b', line: 1, col: 2 });
    // The error ended the stream: later pulls yield nothing.
    assert_eq!(lx.next_token().unwrap(), None);
}

#[test]
fn nested_scan_consumes_the_shared_cursor() {
    let mut parent: RuleSet<Tok> = RuleSet::new();
    parent.add_regex_rule(&frags(&["<"]), Action::Nested(1, Outcome::Skip)).unwrap();
    parent.add_wildcard_rule(emit(D));

    let mut sub: RuleSet<Tok> = RuleSet::new();
    sub.add_regex_rule(&frags(&[">"]), stop()).unwrap();
    sub.add_wildcard_rule(skip());

    let mut lx = Lexer::new(vec![parent, sub], 0, LexBuf::new("<xyz>done")).unwrap();
    // The first item the parent yields resumes exactly at "done": the
    // nested scanner consumed "<xyz>" from the very same cursor.
    let first = lx.next().unwrap().unwrap();
    assert_eq!(first.0, D);
    assert_eq!(first.1.get_abs_loc(), (5, 6));
    assert_eq!(first.1.get_loc(), (1, 6, 1, 6));
    let rest = lx.into_token_vec().unwrap();
    assert_eq!(rest, vec![D, D, D]);
}

#[test]
fn once_on_an_ended_stream_is_an_error() {
    let rs: RuleSet<Tok> = RuleSet::new();
    let lx = Lexer::new(vec![rs], 0, LexBuf::new("")).unwrap();
    assert_eq!(lx.once().unwrap_err(), LexError::EmptyStreamAccess);
}

#[test]
fn once_yields_the_single_next_pair() {
    let mut rs: RuleSet<Tok> = RuleSet::new();
    rs.add_regex_rule(&frags(&["ab"]), emit(X)).unwrap();
    let lx = Lexer::new(vec![rs], 0, LexBuf::new("ab")).unwrap();
    let (t, loc) = lx.once().unwrap();
    assert_eq!(t, X);
    assert_eq!(loc.get_abs_loc(), (0, 2));

    let mut rs2: RuleSet<Tok> = RuleSet::new();
    rs2.add_regex_rule(&frags(&["ab"]), emit(X)).unwrap();
    let lx2 = Lexer::new(vec![rs2], 0, LexBuf::new("ab")).unwrap();
    assert_eq!(lx2.once_token().unwrap(), X);
}

#[test]
fn nested_once_on_an_ended_stream_is_an_error() {
    let mut parent: RuleSet<Tok> = RuleSet::new();
    parent.add_regex_rule(&frags(&["b"]), Action::NestedOnce(1)).unwrap();
    let sub: RuleSet<Tok> = RuleSet::new();
    let mut lx = Lexer::new(vec![parent, sub], 0, LexBuf::new("b")).unwrap();
    assert_eq!(lx.next_token().unwrap_err(), LexError::EmptyStreamAccess);
}

#[test]
fn building_rejects_bad_rules_and_indices() {
    let mut rs: RuleSet<Tok> = RuleSet::new();
    assert_eq!(rs.add_regex_rule(&frags(&[]), emit(A)).unwrap_err(), BuildError::NoOperands);
    assert_eq!(
        rs.add_regex_rule(&frags(&["("]), emit(A)).unwrap_err(),
        BuildError::InvalidPattern
    );
    assert_eq!(
        rs.add_eof_rule(Action::Nested(0, Outcome::Skip)).unwrap_err(),
        BuildError::NestedAtEndOfInput
    );
    assert_eq!(rs.len(), 0);

    let rs1: RuleSet<Tok> = RuleSet::new();
    match Lexer::new(vec![rs1], 1, LexBuf::new("a")) {
        Err(e) => assert_eq!(e, BuildError::NoSuchRuleSet),
        Ok(_) => panic!("a start index past the rule sets was accepted"),
    }

    let mut rs2: RuleSet<Tok> = RuleSet::new();
    rs2.add_regex_rule(&frags(&["a"]), Action::Nested(7, Outcome::Skip)).unwrap();
    match Lexer::new(vec![rs2], 0, LexBuf::new("a")) {
        Err(e) => assert_eq!(e, BuildError::NoSuchRuleSet),
        Ok(_) => panic!("a nested index past the rule sets was accepted"),
    }
}

#[test]
fn multibyte_characters_count_as_single_positions() {
    let mut rs: RuleSet<Tok> = RuleSet::new();
    rs.add_wildcard_rule(emit(A));
    let lx = Lexer::new(vec![rs], 0, LexBuf::new("é✓\nz")).unwrap();
    let pairs = lx.into_vec().unwrap();
    let locs: Vec<(usize, usize, usize, usize)> = pairs.iter().map(|p| p.1.get_loc()).collect();
    assert_eq!(locs, vec![(1, 1, 1, 1), (1, 2, 1, 2), (1, 3, 1, 3), (2, 1, 2, 1)]);
}

#[test]
fn render_forms_follow_the_span_shape() {
    assert_eq!(SrcLoc::new((1, 2), (1, 2), (0, 0)).render(), "1:2");
    assert_eq!(SrcLoc::new((1, 2), (1, 5), (0, 3)).render(), "1:2-5");
    assert_eq!(SrcLoc::new((1, 2), (3, 14), (0, 20)).render(), "1:2-3:14");
    assert_eq!(SrcLoc::new((10, 27), (10, 27), (40, 40)).render(), "10:27");
}

#[test]
fn combine_spans_from_first_start_to_second_end() {
    let a = SrcLoc::new((1, 1), (1, 3), (0, 3));
    let b = SrcLoc::new((2, 1), (2, 4), (5, 9));
    let c = a.combine(b);
    assert_eq!(c.get_loc(), (1, 1, 2, 4));
    assert_eq!(c.get_abs_loc(), (0, 9));
}

#[test]
fn locations_order_by_start_position() {
    let a = SrcLoc::new((1, 5), (1, 9), (4, 8));
    let b = SrcLoc::new((2, 1), (2, 2), (10, 11));
    let c = SrcLoc::new((1, 5), (1, 7), (4, 6));
    assert!(a < b);
    assert!(b > a);
    assert!(a.partial_cmp(&c) == Some(std::cmp::Ordering::Equal));
}

#[test]
fn exhaust_and_empty_consume_the_stream() {
    let lx = Lexer::new(vec![word_rules()], 0, LexBuf::new("ab cd")).unwrap();
    assert!(lx.exhaust().is_ok());
    let lx2 = Lexer::new(vec![word_rules()], 0, LexBuf::new("ab cd")).unwrap();
    assert!(lx2.empty().is_ok());
    let mut bad: RuleSet<Tok> = RuleSet::new();
    bad.add_regex_rule(&frags(&["a"]), emit(A)).unwrap();
    let lx3 = Lexer::new(vec![bad], 0, LexBuf::new("ax")).unwrap();
    assert_eq!(
        lx3.exhaust().unwrap_err(),
        LexError::UnmatchedInput { ch: 'x', line: 1, col: 2 }
    );
}

#[test]
fn tokens_and_into_vec_agree() {
    let lx = Lexer::new(vec![word_rules()], 0, LexBuf::new("ab cd")).unwrap();
    let toks = lx.tokens().unwrap();
    let lx2 = Lexer::new(vec![word_rules()], 0, LexBuf::new("ab cd")).unwrap();
    let pairs = lx2.into_vec().unwrap();
    let stripped: Vec<Tok> = pairs.iter().map(|p| p.0).collect();
    assert_eq!(toks, stripped);
    assert_eq!(pairs[0].1.get_abs_loc(), (0, 2));
    assert_eq!(pairs[1].1.get_abs_loc(), (3, 5));
}

#[test]
fn cursor_reports_progress() {
    let buf = LexBuf::new("ab");
    assert_eq!(buf.line(), 1);
    assert_eq!(buf.col(), 1);
    assert_eq!(buf.abs_pos(), 0);
    assert_eq!(buf.rest_len(), 2);
    assert!(!buf.exhausted());
}

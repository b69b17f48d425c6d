use lexr::{Action, LexBuf, Lexer, Outcome, RuleSet};

#[derive(Debug, PartialEq, Clone, Copy)]
enum Token {
    A,
    B,
    C,
    Eof,
}
use Token::{A, B, C, Eof};

#[derive(Debug, PartialEq, Clone, Copy)]
enum T {
    A,
    B,
    C,
    D,
    Num,
    Eof,
}

const A_RULE: &str = "a";
const B_RULE: &str = "b";

fn frags(parts: &[&str]) -> Vec<String> {
    let mut v = Vec::new();
    for p in parts {
        v.push(p.to_string());
    }
    v
}

fn emit(t: Token) -> Action<Token> {
    Action::Do(Outcome::Emit(t))
}

fn skip() -> Action<Token> {
    Action::Do(Outcome::Skip)
}

fn stop() -> Action<Token> {
    Action::Do(Outcome::Stop)
}

#[test]
fn wildcard_matches_any_char() {
    let mut rs: RuleSet<Token> = RuleSet::new();
    rs.add_wildcard_rule(emit(A));
    let lx = Lexer::new(vec![rs], 0, LexBuf::new("abc")).unwrap();
    let toks = lx.into_token_vec().unwrap();
    assert_eq!(toks, vec![A, A, A]);
}

#[test]
fn can_use_buf_in_sub_rule() {
    let mut main: RuleSet<Token> = RuleSet::new();
    main.add_regex_rule(&frags(&["a"]), emit(A)).unwrap();
    main.add_regex_rule(&frags(&["b"]), Action::NestedOnce(1)).unwrap();

    let mut sub: RuleSet<Token> = RuleSet::new();
    sub.add_regex_rule(&frags(&["c"]), emit(C)).unwrap();

    let lx = Lexer::new(vec![main, sub], 0, LexBuf::new("aabcbc")).unwrap();
    let lexed = lx.into_token_vec().unwrap();
    assert_eq!(lexed, vec![A, A, C, C])
}

#[test]
fn subrule_mutates_same_buf() {
    let mut main: RuleSet<Token> = RuleSet::new();
    main.add_regex_rule(&frags(&["a"]), emit(A)).unwrap();
    main.add_regex_rule(&frags(&["b"]), Action::Nested(1, Outcome::Skip)).unwrap();
    main.add_regex_rule(&frags(&["c"]), emit(C)).unwrap();

    let mut sub: RuleSet<Token> = RuleSet::new();
    sub.add_regex_rule(&frags(&["c"]), stop()).unwrap();
    sub.add_wildcard_rule(skip());

    let lx = Lexer::new(vec![main, sub], 0, LexBuf::new("aabaabbacc")).unwrap();
    let tokens = lx.into_token_vec().unwrap();
    assert_eq!(tokens, vec![A, A, C])
}

#[test]
fn can_concatenate_rules() {
    let mut rs: RuleSet<Token> = RuleSet::new();
    rs.add_regex_rule(&frags(&["a", "b"]), emit(A)).unwrap();
    rs.add_regex_rule(&frags(&["b", "a"]), emit(B)).unwrap();
    rs.add_wildcard_rule(emit(C));

    let lx = Lexer::new(vec![rs], 0, LexBuf::new("abbac")).unwrap();
    let tokens = lx.into_token_vec().unwrap();
    assert_eq!(tokens, vec![A, B, C])
}

#[test]
fn can_use_const_and_static_regex_rules() {
    let mut rs: RuleSet<Token> = RuleSet::new();
    rs.add_regex_rule(&frags(&[A_RULE]), emit(A)).unwrap();
    rs.add_regex_rule(&frags(&[B_RULE]), emit(B)).unwrap();
    rs.add_wildcard_rule(emit(C));

    let lx = Lexer::new(vec![rs], 0, LexBuf::new("abc")).unwrap();
    let tokens = lx.into_token_vec().unwrap();
    assert_eq!(tokens, vec![A, B, C])
}

#[test]
fn can_concatenate_string_and_const_rules() {
    let mut rs: RuleSet<Token> = RuleSet::new();
    rs.add_regex_rule(&frags(&[A_RULE, "a", "b"]), emit(A)).unwrap();
    rs.add_regex_rule(&frags(&[B_RULE, "b", "a"]), emit(B)).unwrap();
    rs.add_wildcard_rule(emit(C));

    let lx = Lexer::new(vec![rs], 0, LexBuf::new("aabbbac")).unwrap();
    let tokens = lx.into_token_vec().unwrap();
    assert_eq!(tokens, vec![A, B, C])
}

#[test]
fn lex_params_work_as_expected() {
    let mut rs: RuleSet<Token> = RuleSet::new();
    rs.add_regex_rule(&frags(&["a"]), emit(A)).unwrap();
    rs.add_regex_rule(&frags(&["b"]), emit(B)).unwrap();
    rs.add_regex_rule(&frags(&["c"]), emit(C)).unwrap();
    rs.add_regex_rule(&frags(&["d"]), stop()).unwrap();

    let lx = Lexer::new(vec![rs], 0, LexBuf::new("abcd")).unwrap();
    let tokens = lx.into_token_vec().unwrap();
    assert_eq!(tokens, vec![A, B, C])
}

#[test]
fn break_stops_the_lexer() {
    let mut rs: RuleSet<Token> = RuleSet::new();
    rs.add_regex_rule(&frags(&["a"]), emit(A)).unwrap();
    rs.add_regex_rule(&frags(&["b"]), stop()).unwrap();

    let lx = Lexer::new(vec![rs], 0, LexBuf::new("abaaaa")).unwrap();
    let toks = lx.into_token_vec().unwrap();
    assert_eq!(toks, vec![A]);
}

#[test]
fn continue_skips_the_character() {
    let mut rs: RuleSet<Token> = RuleSet::new();
    rs.add_regex_rule(&frags(&["a"]), emit(A)).unwrap();
    rs.add_regex_rule(&frags(&["b"]), skip()).unwrap();

    let lx = Lexer::new(vec![rs], 0, LexBuf::new("aba")).unwrap();
    let toks = lx.into_token_vec().unwrap();
    assert_eq!(toks, vec![A, A]);
}

#[test]
fn eof_detected_in_empty_string() {
    let mut rs: RuleSet<Token> = RuleSet::new();
    rs.add_eof_rule(emit(Eof)).unwrap();

    let lx = Lexer::new(vec![rs], 0, LexBuf::new("")).unwrap();
    let toks = lx.into_token_vec().unwrap();
    assert_eq!(toks, vec![Eof]);
}

#[test]
fn stops_at_eof() {
    let mut rs: RuleSet<Token> = RuleSet::new();
    rs.add_regex_rule(&frags(&["a"]), skip()).unwrap();
    rs.add_eof_rule(emit(Eof)).unwrap();

    let lx = Lexer::new(vec![rs], 0, LexBuf::new("aaa")).unwrap();
    let toks = lx.into_token_vec().unwrap();
    assert_eq!(toks, vec![Eof]);
}

#[test]
fn terminate_without_explicit_eof_rule() {
    let rs: RuleSet<Token> = RuleSet::new();

    let lx = Lexer::new(vec![rs], 0, LexBuf::new("")).unwrap();
    let toks = lx.into_vec().unwrap();
    assert_eq!(toks, vec![]);
}

#[test]
fn wildcard_does_not_match_eof() {
    let mut rs: RuleSet<Token> = RuleSet::new();
    rs.add_wildcard_rule(emit(A));
    rs.add_eof_rule(emit(Eof)).unwrap();

    let lx = Lexer::new(vec![rs], 0, LexBuf::new("")).unwrap();
    let toks = lx.into_token_vec().unwrap();
    assert_eq!(toks, vec![Eof]);
}

#[test]
fn only_single_eof_with_wildcard_rule() {
    let mut rs: RuleSet<Token> = RuleSet::new();
    rs.add_eof_rule(emit(Eof)).unwrap();
    rs.add_wildcard_rule(skip());

    let lx = Lexer::new(vec![rs], 0, LexBuf::new("aaaa")).unwrap();
    let toks = lx.into_token_vec().unwrap();
    assert_eq!(toks, vec![Eof]);
}

#[test]
fn readme_example() {
    let a_rule = "a";

    let mut rs: RuleSet<T> = RuleSet::new();
    rs.add_regex_rule(&frags(&[r"\s+"]), Action::Do(Outcome::Skip)).unwrap();
    rs.add_regex_rule(&frags(&["a"]), Action::Do(Outcome::Emit(T::A))).unwrap();
    rs.add_regex_rule(&frags(&["b", "a"]), Action::Do(Outcome::Emit(T::B))).unwrap();
    rs.add_regex_rule(&frags(&["c", a_rule]), Action::Do(Outcome::Emit(T::C))).unwrap();
    rs.add_regex_rule(&frags(&[r"[0-9]+"]), Action::Do(Outcome::Emit(T::Num))).unwrap();
    rs.add_wildcard_rule(Action::Do(Outcome::Emit(T::D)));
    rs.add_eof_rule(Action::Do(Outcome::Emit(T::Eof))).unwrap();

    let lx = Lexer::new(vec![rs], 0, LexBuf::new("a ba ca S 42")).unwrap();
    let tokens = lx.into_token_vec().unwrap();
    assert_eq!(tokens, vec![T::A, T::B, T::C, T::D, T::Num, T::Eof])
}

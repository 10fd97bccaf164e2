use patmatch::ast::Pattern;
use patmatch::ast::Span;
use patmatch::grammar::ParseError;
use patmatch::parser::parse;
use patmatch::search::search;

fn chars(s: &str) -> Vec<char> {
    s.chars().collect()
}

fn found(pattern: &str, line: &str) -> bool {
    match parse(chars(pattern)).expect("pattern must parse") {
        None => true,
        Some((ast, groups)) => search(&ast, groups, &chars(line)).is_some(),
    }
}

fn captures(pattern: &str, line: &str) -> Option<Vec<Option<Span>>> {
    let (ast, groups) = parse(chars(pattern)).expect("pattern must parse").expect("non-empty");
    search(&ast, groups, &chars(line))
}

fn parse_err(pattern: &str) -> ParseError {
    match parse(chars(pattern)) {
        Err(e) => e,
        Ok(_) => panic!("pattern unexpectedly parsed"),
    }
}

#[test]
fn literal_substring_found() {
    assert!(found("cat", "a cat sat"));
    assert!(found("cat", "cat"));
    assert!(!found("cat", "a dog sat"));
    assert!(!found("cat", "ca"));
}

#[test]
fn bracket_sets() {
    assert!(found("[abc]", "zb"));
    assert!(!found("[abc]", "xyz"));
    assert!(found("[^abc]", "ad"));
    assert!(!found("[^abc]", "abc"));
}

#[test]
fn start_anchor() {
    assert!(found("^foo", "foobar"));
    assert!(!found("^foo", "zfoo"));
}

#[test]
fn end_anchor() {
    assert!(found("foo$", "myfoo"));
    assert!(!found("foo$", "foox"));
}

#[test]
fn one_or_more_is_greedy() {
    assert!(found("a+", "caaats"));
    assert!(!found("a+", "bcd"));
    let caps = captures("(a+)", "caaat").expect("must match");
    assert_eq!(caps[0], Some(Span { start: 1, end: 4 }));
}

#[test]
fn greedy_quantifier_never_gives_back() {
    // The maximal run is consumed and never given back, so a literal that
    // needs one of those characters afterwards fails.
    assert!(!found("a+a", "aaa"));
    assert!(found("a+b", "aab"));
}

#[test]
fn zero_or_one() {
    assert!(found("a?b", "b"));
    assert!(found("a?b", "ab"));
    assert!(!found("a?b", "ac"));
}

#[test]
fn capture_backreference_round_trip() {
    assert!(found("(cat) and \\1", "cat and cat"));
    assert!(!found("(cat) and \\1", "cat and dog"));
    let caps = captures("(cat) and \\1", "cat and cat").expect("must match");
    assert_eq!(caps[0], Some(Span { start: 0, end: 3 }));
}

#[test]
fn alternation_in_group() {
    assert!(found("(cat|car)s", "cats"));
    assert!(found("(cat|car)s", "cars"));
    assert!(!found("(cat|car)s", "cabs"));
}

#[test]
fn nested_quantifiers_parse() {
    assert!(parse(chars("a++")).is_ok());
    let (ast, groups) = parse(chars("a+?")).unwrap().unwrap();
    assert_eq!(groups, 0);
    assert_eq!(
        ast,
        Pattern::ZeroOrOne(Box::new(Pattern::OneOrMore(Box::new(Pattern::Literal('a'))))),
    );
}

#[test]
fn malformed_patterns_fail() {
    assert_eq!(parse_err("[abc"), ParseError::UnexpectedEnd);
    assert_eq!(parse_err("()"), ParseError::UnexpectedEnd);
    assert_eq!(parse_err("\\z"), ParseError::UnsupportedEscape);
    assert_eq!(parse_err("\\0"), ParseError::ZeroBackreference);
    assert_eq!(parse_err("(a\\1)"), ParseError::SelfBackreference);
    assert_eq!(parse_err("\\1"), ParseError::UnknownBackreference);
    assert_eq!(parse_err("+a"), ParseError::LeadingQuantifier);
    assert_eq!(parse_err("?a"), ParseError::LeadingQuantifier);
    assert_eq!(parse_err("(a"), ParseError::UnexpectedEnd);
}

#[test]
fn digits_class() {
    assert!(found("\\d+", "there are 42 cats"));
    assert!(!found("\\d", "no digits here"));
}

#[test]
fn alphanumeric_class() {
    assert!(found("\\w", "...a..."));
    assert!(found("\\w", "été"));
    assert!(!found("\\w", "!?."));
}

#[test]
fn wildcard_consumes_any() {
    assert!(found("c.t", "cut"));
    assert!(!found("c.t", "ct"));
}

#[test]
fn empty_pattern_matches() {
    assert!(parse(chars("")).unwrap().is_none());
    assert!(found("", "anything"));
}

#[test]
fn literal_ast_shape() {
    let (ast, groups) = parse(chars("ab")).unwrap().unwrap();
    assert_eq!(groups, 0);
    assert_eq!(
        ast,
        Pattern::List(vec![Pattern::Literal('a'), Pattern::Literal('b')]),
    );
}

#[test]
fn group_ids_dense_left_to_right() {
    let (ast, groups) = parse(chars("((a)b)")).unwrap().unwrap();
    assert_eq!(groups, 2);
    match ast {
        Pattern::CaptureGroup { id, item } => {
            assert_eq!(id, 0);
            match *item {
                Pattern::List(items) => match &items[0] {
                    Pattern::CaptureGroup { id, .. } => assert_eq!(*id, 1),
                    other => panic!("unexpected inner {:?}", other),
                },
                other => panic!("unexpected body {:?}", other),
            }
        },
        other => panic!("unexpected root {:?}", other),
    }
}

#[test]
fn untaken_branch_leaves_capture_unset() {
    let caps = captures("(x)y|z", "z").expect("must match");
    assert_eq!(caps.len(), 1);
    assert_eq!(caps[0], None);
}

#[test]
fn search_reports_first_offset_state() {
    let caps = captures("(b+)", "abba").expect("must match");
    assert_eq!(caps[0], Some(Span { start: 1, end: 3 }));
}

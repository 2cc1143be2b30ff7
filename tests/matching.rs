use regex_parser::matcher::{
    execute, match_pattern, AlternativesEnd, Attempt, ExecError, FailureReason, MatchError, Matching,
    QuantifierEnd, Span, Step,
};
use regex_parser::parser::{parse, ParseErrorCode};

fn run(pattern: &str, input: &str) -> Matching {
    let tree = parse(pattern).unwrap();
    execute(&tree, input, 10_000).unwrap()
}

fn star_counts(m: &Matching) -> Vec<usize> {
    m.steps
        .iter()
        .filter_map(|s| match s {
            Step::FinishStar(QuantifierEnd::Success { num_repetitions, .. }) => Some(*num_repetitions),
            _ => None,
        })
        .collect()
}

fn backtracks(m: &Matching) -> Vec<(usize, usize)> {
    m.steps
        .iter()
        .filter_map(|s| match s {
            Step::Backtrack { string_pos, continue_after_step } => Some((*string_pos, *continue_after_step)),
            _ => None,
        })
        .collect()
}

#[test]
fn literal_sequence_matches_whole_input() {
    let m = run("foo", "foo");
    assert!(m.matched);
    let caps = m.captures.as_ref().unwrap();
    assert_eq!(caps.whole, Span(0, 3));
    assert_eq!(*m.steps.last().unwrap(), Step::End { string_pos: 3, success: true });
    assert_eq!(
        m.steps[0],
        Step::MatchLiteral { literal: 'f', attempt: Attempt::Success { string_span: Span(0, 1) } }
    );
    assert_eq!(m.steps.len(), 4);
}

#[test]
fn short_input_fails_at_end_of_input() {
    let m = run("foo", "fo");
    assert!(!m.matched);
    assert!(m.captures.is_none());
    assert_eq!(*m.steps.last().unwrap(), Step::End { string_pos: 2, success: false });
    assert_eq!(
        m.steps[m.steps.len() - 2],
        Step::MatchLiteral {
            literal: 'o',
            attempt: Attempt::Failure { string_pos: 2, failure_reason: FailureReason::EndOfInput }
        }
    );
}

#[test]
fn other_char_and_excluded_char() {
    let m = run("a", "b");
    assert_eq!(
        m.steps[0],
        Step::MatchLiteral { literal: 'a', attempt: Attempt::Failure { string_pos: 0, failure_reason: FailureReason::OtherChar } }
    );
    let m = run("[a-c]", "z");
    assert_eq!(
        m.steps[0],
        Step::MatchCharClass(Attempt::Failure { string_pos: 0, failure_reason: FailureReason::ExcludedChar })
    );
    let m = run("[a-cx]", "x");
    assert!(m.matched);
    let m = run(".", "");
    assert_eq!(
        m.steps[0],
        Step::MatchWildcard(Attempt::Failure { string_pos: 0, failure_reason: FailureReason::EndOfInput })
    );
}

#[test]
fn greedy_star_tries_most_first() {
    let m = run("a*", "aaa");
    assert!(m.matched);
    assert_eq!(star_counts(&m), vec![3]);
    assert_eq!(m.steps[0], Step::MatchStar { string_pos: 0 });
    let m = run("a*a", "aaa");
    assert!(m.matched);
    assert_eq!(star_counts(&m), vec![3, 2]);
    assert!(!backtracks(&m).is_empty());
}

#[test]
fn lazy_star_tries_fewest_first() {
    let m = run("a*?", "aaa");
    assert!(m.matched);
    assert_eq!(star_counts(&m), vec![0, 1, 2, 3]);
    assert_eq!(backtracks(&m).len(), 3);
    let greedy = run("a*", "aaa");
    assert_ne!(star_counts(&m), star_counts(&greedy));
    assert_ne!(backtracks(&m), backtracks(&greedy));
}

#[test]
fn possessive_never_gives_back() {
    let m = run("a*+a", "aaa");
    assert!(!m.matched);
    assert_eq!(star_counts(&m), vec![3]);
    let consumed = Span(0, 3);
    for (pos, _) in backtracks(&m) {
        assert!(!(consumed.0 < pos && pos < consumed.1));
    }
    let m = run("(?:x|a*+)b", "aab");
    assert!(m.matched);
    let m = run("a++b", "aab");
    assert!(m.matched);
}

#[test]
fn alternatives_are_tried_left_to_right() {
    let m = run("ab|a", "a");
    assert!(m.matched);
    assert_eq!(m.steps[0], Step::MatchAlternatives { string_pos: 0 });
    assert!(m.steps.contains(&Step::Backtrack { string_pos: 0, continue_after_step: 0 }));
    assert!(m.steps.contains(&Step::FinishAlternatives(AlternativesEnd::Success {
        string_span: Span(0, 1),
        alternative_chosen: 1
    })));
    let m = run("a|b", "c");
    assert!(!m.matched);
    assert!(m.steps.contains(&Step::FinishAlternatives(AlternativesEnd::Failure {
        string_pos: 0,
        failure_reason: FailureReason::OptionsExhausted
    })));
}

#[test]
fn groups_are_numbered_left_to_right() {
    let m = run("(?<x>a)(b)", "ab");
    assert!(m.matched);
    let caps = m.captures.unwrap();
    assert_eq!(caps.whole, Span(0, 2));
    assert_eq!(caps.by_index, vec![(1, Span(0, 1)), (2, Span(1, 2))]);
    assert_eq!(caps.by_name, vec![(String::from("x"), Span(0, 1))]);
    let m = run("(?:a)(b)", "ab");
    assert_eq!(m.captures.unwrap().by_index, vec![(1, Span(1, 2))]);
}

#[test]
fn quantified_group_keeps_last_span() {
    let m = run("(a)*", "aa");
    assert!(m.matched);
    assert_eq!(m.captures.unwrap().by_index, vec![(1, Span(1, 2))]);
}

#[test]
fn bounded_repeats() {
    assert!(run("a{2}", "aa").matched);
    assert!(!run("a{2}", "aaa").matched);
    assert!(run("a{2,3}", "aaa").matched);
    assert!(!run("a{2,3}", "aaaa").matched);
    assert!(run("a{,2}", "").matched);
    assert!(run("a{1,}", "aaaa").matched);
    assert!(run("a?b", "b").matched);
    assert!(run("a+", "aa").matched);
    assert!(!run("a+", "").matched);
    assert!(run("(a*)*b", "aab").matched);
}

#[test]
fn anchors_hold_at_the_ends() {
    assert!(run("^ab$", "ab").matched);
    assert!(!run("a^b", "ab").matched);
}

#[test]
fn executing_twice_is_identical() {
    let tree = parse("(a|ab)*c").unwrap();
    let m1 = execute(&tree, "abac", 10_000).unwrap();
    let m2 = execute(&tree, "abac", 10_000).unwrap();
    assert_eq!(m1.matched, m2.matched);
    assert_eq!(m1.steps, m2.steps);
    let (c1, c2) = (m1.captures.unwrap(), m2.captures.unwrap());
    assert_eq!(c1.whole, c2.whole);
    assert_eq!(c1.by_index, c2.by_index);
    assert_eq!(c1.by_name, c2.by_name);
}

#[test]
fn step_limit_is_reported() {
    let tree = parse("(a*)*b").unwrap();
    assert_eq!(execute(&tree, "aaaaaaaaaaaaaaaa", 50).err(), Some(ExecError::Exhausted));
}

#[test]
fn parse_errors_propagate() {
    match match_pattern("a{5,2}", "a", 100) {
        Err(MatchError::Parse(e)) => assert_eq!(e.code, ParseErrorCode::InvalidRange),
        _ => panic!("expected a parse error"),
    }
    assert!(match_pattern("a|b", "b", 100).unwrap().matched);
    assert!(matches!(match_pattern("(a*)*b", "aaaaaaaaaaaaaaaa", 50), Err(MatchError::Exhausted)));
}

#[test]
fn span_accessors() {
    let s = Span(2, 5);
    assert_eq!(s.index(), 2);
    assert_eq!(s.length(), 3);
}

use regex_parser::parser::{ParseErrorCode, RegexParser};
use regex_parser::regex::{Capture, Eagerness, NamedCaptureFlavor, RegexPart, RepeatSpec};

fn lit(s: &str) -> RegexPart {
    RegexPart::Sequence(s.chars().map(RegexPart::Literal).collect())
}

fn lit_char(c: char) -> RegexPart {
    RegexPart::Literal(c)
}

fn group(name: &str, flavor: NamedCaptureFlavor, inner: RegexPart) -> RegexPart {
    RegexPart::ParenGroup {
        capture: Some(Capture::Name { name: String::from(name), flavor }),
        inner: Box::new(inner),
    }
}

#[test]
fn test_basics() {
    let parser = RegexParser::new();
    assert_eq!(parser.parse("foo"), Ok(lit("foo")));
    assert_eq!(parser.parse("x"), Ok(lit_char('x')));
    assert_eq!(parser.parse(""), Ok(RegexPart::Empty));
    assert_eq!(parser.parse("тест юникода"), Ok(lit("тест юникода")));
    assert_eq!(parser.parse("\t  whitespace   "), Ok(lit("\t  whitespace   ")));
}

#[test]
fn test_alternatives() {
    let parser = RegexParser::new();
    assert_eq!(
        parser.parse("foo|bar"),
        Ok(RegexPart::Alternatives(vec![lit("foo"), lit("bar")]))
    );
    assert_eq!(
        parser.parse("foo|x"),
        Ok(RegexPart::Alternatives(vec![lit("foo"), lit_char('x')]))
    );
    assert_eq!(
        parser.parse("a|b|c|d|e"),
        Ok(RegexPart::Alternatives(vec![
            lit_char('a'),
            lit_char('b'),
            lit_char('c'),
            lit_char('d'),
            lit_char('e'),
        ]))
    );
}

#[test]
fn test_groups() {
    let parser = RegexParser::new();
    assert_eq!(
        parser.parse("(aaa)"),
        Ok(RegexPart::ParenGroup { capture: Some(Capture::Index), inner: Box::new(lit("aaa")) })
    );
    assert_eq!(
        parser.parse("(a)"),
        Ok(RegexPart::ParenGroup { capture: Some(Capture::Index), inner: Box::new(lit_char('a')) })
    );
    assert_eq!(
        parser.parse("(?:foobar)"),
        Ok(RegexPart::ParenGroup { capture: None, inner: Box::new(lit("foobar")) })
    );
    assert_eq!(parser.parse("(?<x>foobar)"), Ok(group("x", NamedCaptureFlavor::Angles, lit("foobar"))));
    assert_eq!(parser.parse("(?<quux>12345)"), Ok(group("quux", NamedCaptureFlavor::Angles, lit("12345"))));
    assert_eq!(parser.parse("(?'abc123'xyz)"), Ok(group("abc123", NamedCaptureFlavor::Apostrophes, lit("xyz"))));
    assert_eq!(parser.parse("(?P<name>group)"), Ok(group("name", NamedCaptureFlavor::AnglesWithP, lit("group"))));
    assert_eq!(parser.parse("(?P<тест>юникода)"), Ok(group("тест", NamedCaptureFlavor::AnglesWithP, lit("юникода"))));
    assert_eq!(parser.parse("(?<a>)"), Ok(group("a", NamedCaptureFlavor::Angles, RegexPart::Empty)));
    assert_eq!(parser.parse("(?'bb')"), Ok(group("bb", NamedCaptureFlavor::Apostrophes, RegexPart::Empty)));
    assert_eq!(parser.parse("(?P<ccc>)"), Ok(group("ccc", NamedCaptureFlavor::AnglesWithP, RegexPart::Empty)));
}

#[test]
fn single_branch_alternation_collapses() {
    let parser = RegexParser::new();
    assert_eq!(
        parser.parse("a|b|c"),
        Ok(RegexPart::Alternatives(vec![lit_char('a'), lit_char('b'), lit_char('c')]))
    );
    assert_eq!(
        parser.parse("(a)"),
        Ok(RegexPart::ParenGroup { capture: Some(Capture::Index), inner: Box::new(lit_char('a')) })
    );
    assert_eq!(
        parser.parse("a|"),
        Ok(RegexPart::Alternatives(vec![lit_char('a'), RegexPart::Empty]))
    );
}

#[test]
fn invalid_ranges_are_rejected() {
    let parser = RegexParser::new();
    let e = parser.parse("[z-a]").unwrap_err();
    assert_eq!(e.code, ParseErrorCode::InvalidRange);
    assert_eq!(e.position, 1);
    let e = parser.parse("a{5,2}").unwrap_err();
    assert_eq!(e.code, ParseErrorCode::InvalidRange);
    assert_eq!(e.position, 2);
    let e = parser.parse("a{99999999999999999999999}").unwrap_err();
    assert_eq!(e.code, ParseErrorCode::InvalidRange);
}

#[test]
fn unterminated_and_stray_groups() {
    let parser = RegexParser::new();
    let e = parser.parse("(unterminated").unwrap_err();
    assert_eq!(e.code, ParseErrorCode::UnexpectedEnd);
    assert_eq!(e.position, 13);
    let e = parser.parse("ab)c").unwrap_err();
    assert_eq!(e.code, ParseErrorCode::UnexpectedChar);
    assert_eq!(e.position, 2);
    assert!(!e.hint.is_empty());
    let e = parser.parse("*a").unwrap_err();
    assert_eq!(e.code, ParseErrorCode::UnexpectedChar);
    assert_eq!(e.position, 0);
    let e = parser.parse("[ab").unwrap_err();
    assert_eq!(e.code, ParseErrorCode::UnexpectedEnd);
    let e = parser.parse("(?x)").unwrap_err();
    assert_eq!(e.code, ParseErrorCode::UnexpectedChar);
    assert_eq!(e.position, 2);
    let e = parser.parse("a\\").unwrap_err();
    assert_eq!(e.code, ParseErrorCode::UnexpectedEnd);
}

#[test]
fn quantifiers_and_classes() {
    let parser = RegexParser::new();
    assert_eq!(
        parser.parse("a*?"),
        Ok(RegexPart::ZeroOrMore { eagerness: Eagerness::Lazy, inner: Box::new(lit_char('a')) })
    );
    assert_eq!(
        parser.parse("a++"),
        Ok(RegexPart::OneOrMore { eagerness: Eagerness::Possessive, inner: Box::new(lit_char('a')) })
    );
    assert_eq!(parser.parse("a?"), Ok(RegexPart::Optional(Box::new(lit_char('a')))));
    assert_eq!(
        parser.parse("a{3}"),
        Ok(RegexPart::Repeat { eagerness: Eagerness::Greedy, n: RepeatSpec::Exactly(3), inner: Box::new(lit_char('a')) })
    );
    assert_eq!(
        parser.parse("a{2,}"),
        Ok(RegexPart::Repeat { eagerness: Eagerness::Greedy, n: RepeatSpec::AtLeast(2), inner: Box::new(lit_char('a')) })
    );
    assert_eq!(
        parser.parse("a{,4}?"),
        Ok(RegexPart::Repeat { eagerness: Eagerness::Lazy, n: RepeatSpec::AtMost(4), inner: Box::new(lit_char('a')) })
    );
    match parser.parse("a{2,5}") {
        Ok(RegexPart::Repeat { n: RepeatSpec::Range(r), .. }) => {
            assert_eq!((*r.min(), *r.max()), (2, 5));
        }
        other => panic!("unexpected {:?}", other),
    }
    match parser.parse("[a-cx]") {
        Ok(RegexPart::Bracketed(b)) => assert_eq!(b.alternatives.len(), 2),
        other => panic!("unexpected {:?}", other),
    }
    assert_eq!(
        parser.parse("^.$"),
        Ok(RegexPart::Sequence(vec![RegexPart::LineStart, RegexPart::Wildcard, RegexPart::LineEnd]))
    );
    assert_eq!(parser.parse("\\*"), Ok(lit_char('*')));
}

#[test]
fn parsing_twice_gives_equal_trees() {
    let parser = RegexParser::new();
    for p in ["(?<x>a)(b)", "a|b*?|[c-e]+", "(unterminated", "x{2,3}+"] {
        assert_eq!(parser.parse(p), parser.parse(p));
    }
}

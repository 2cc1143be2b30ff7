//! Recursive-descent parsing of pattern text into a syntax tree.
//!
//! Grammar:
//!
//! ```text
//! Pattern     := Alternation
//! Alternation := Sequence ('|' Sequence)*
//! Sequence    := Atom*
//! Atom        := (Literal | '.' | Class | Group | '^' | '$') Quantifier?
//! Literal     := any character but | ( ) [ . ^ $ * + ? { \  |  '\' any character
//! Class       := '[' (Char '-' Char | Char)* ']'
//! Group       := '(' ('?:' | '?P<' Name '>' | '?<' Name '>' | "?'" Name "'")? Alternation ')'
//! Quantifier  := '?' | '*' Eager | '+' Eager | '{' Bound '}' Eager
//! Bound       := n | n ',' | ',' m | n ',' m
//! Eager       := '?' (lazy) | '+' (possessive) | nothing (greedy)
//! ```
use vstd::prelude::*;
use vstd::string::StringExecFns;
use crate::range::Range;
use crate::text::{chars_of, push_char};
use crate::regex::{
    Bracketed, BracketedAlternative, Capture, CaptureTag, ClassItem, Eagerness,
    NamedCaptureFlavor, RegexPart, RepeatSpec, Reps, Tree, capture_view, class_view, parts_view,
    well_formed,
};

verus! {

/// What went wrong while parsing.
#[derive(Debug, Copy, Clone, PartialEq, Eq, Structural)]
pub enum ParseErrorCode {
    /// Input was left over where the pattern should have ended. This
    /// grammar reports a stray character as `UnexpectedChar` instead, so the
    /// parser never produces this code; it is part of the error vocabulary
    /// that consumers decode.
    ExpectedEnd,
    /// A character stands where no rule of the grammar accepts it.
    UnexpectedChar,
    /// The pattern ended inside a construct.
    UnexpectedEnd,
    /// A class range or a repetition bound has its lower end above its
    /// upper end, or a bound does not fit in `usize`.
    InvalidRange,
}

/// A parse failure: its kind, the character offset it was found at, and a
/// message for display.
#[derive(Debug, Clone, PartialEq, Eq)]
pub struct ParseError {
    pub code: ParseErrorCode,
    pub position: usize,
    pub hint: String,
}

/// The outcome of a parsing rule in the model: the tree and the offset right
/// after it, or the error kind and the offset it was found at.
pub type Parsed<T> = Result<(T, int), (ParseErrorCode, int)>;

pub open spec fn is_special(c: char) -> bool {
    c == '|' || c == '(' || c == ')' || c == '[' || c == '.' || c == '^' || c == '$'
        || c == '*' || c == '+' || c == '?' || c == '{' || c == '\\'
}

pub open spec fn is_digit(c: char) -> bool {
    '0' <= c && c <= '9'
}

pub open spec fn digit_value(c: char) -> nat {
    (c as int - '0' as int) as nat
}

/// The offset of the first non-digit at or after `k`.
pub open spec fn digits_end(s: Seq<char>, k: int) -> int
    decreases s.len() - k,
{
    if 0 <= k < s.len() && is_digit(s[k]) {
        digits_end(s, k + 1)
    } else {
        k
    }
}

/// The decimal number written in `s[a..b]`.
pub open spec fn number(s: Seq<char>, a: int, b: int) -> nat
    decreases b - a,
{
    if b <= a {
        0
    } else {
        number(s, a, b - 1) * 10 + digit_value(s[b - 1])
    }
}

/// The offset of the first `term` at or after `k`, or the length of `s`.
pub open spec fn find(s: Seq<char>, k: int, term: char) -> int
    decreases s.len() - k,
{
    if 0 <= k < s.len() && s[k] != term {
        find(s, k + 1, term)
    } else {
        k
    }
}

pub open spec fn collapse_seq(acc: Seq<Tree>) -> Tree {
    if acc.len() == 0 {
        Tree::Empty
    } else if acc.len() == 1 {
        acc[0]
    } else {
        Tree::Sequence(acc)
    }
}

pub open spec fn collapse_alt(acc: Seq<Tree>) -> Tree {
    if acc.len() == 1 {
        acc[0]
    } else {
        Tree::Alternatives(acc)
    }
}

/// The eagerness suffix at `k`.
pub open spec fn eager_at(s: Seq<char>, k: int) -> (Eagerness, int) {
    if 0 <= k < s.len() && s[k] == '?' {
        (Eagerness::Lazy, k + 1)
    } else if 0 <= k < s.len() && s[k] == '+' {
        (Eagerness::Possessive, k + 1)
    } else {
        (Eagerness::Greedy, k)
    }
}

/// The body of `{...}`, starting right after the `{`.
pub open spec fn bound_at(s: Seq<char>, k: int) -> Parsed<Reps> {
    let e1 = digits_end(s, k);
    let n = number(s, k, e1);
    if e1 >= s.len() {
        Err((ParseErrorCode::UnexpectedEnd, e1))
    } else if e1 > k && n > usize::MAX {
        Err((ParseErrorCode::InvalidRange, k))
    } else if s[e1] == '}' {
        if e1 > k {
            Ok((Reps::Exactly(n), e1 + 1))
        } else {
            Err((ParseErrorCode::UnexpectedChar, e1))
        }
    } else if s[e1] == ',' {
        let e2 = digits_end(s, e1 + 1);
        let m = number(s, e1 + 1, e2);
        if e2 >= s.len() {
            Err((ParseErrorCode::UnexpectedEnd, e2))
        } else if e2 > e1 + 1 && m > usize::MAX {
            Err((ParseErrorCode::InvalidRange, e1 + 1))
        } else if s[e2] != '}' {
            Err((ParseErrorCode::UnexpectedChar, e2))
        } else if e1 > k && e2 > e1 + 1 {
            if n <= m {
                Ok((Reps::Between(n, m), e2 + 1))
            } else {
                Err((ParseErrorCode::InvalidRange, k))
            }
        } else if e1 > k {
            Ok((Reps::AtLeast(n), e2 + 1))
        } else if e2 > e1 + 1 {
            Ok((Reps::AtMost(m), e2 + 1))
        } else {
            Err((ParseErrorCode::UnexpectedChar, e2))
        }
    } else {
        Err((ParseErrorCode::UnexpectedChar, e1))
    }
}

/// The quantifier, if any, that follows an atom `t` ending at `j`.
pub open spec fn quantified(s: Seq<char>, j: int, t: Tree) -> Parsed<Tree> {
    if 0 <= j < s.len() && s[j] == '?' {
        Ok((Tree::Optional(Box::new(t)), j + 1))
    } else if 0 <= j < s.len() && s[j] == '*' {
        let (e, k) = eager_at(s, j + 1);
        Ok((Tree::ZeroOrMore { eagerness: e, inner: Box::new(t) }, k))
    } else if 0 <= j < s.len() && s[j] == '+' {
        let (e, k) = eager_at(s, j + 1);
        Ok((Tree::OneOrMore { eagerness: e, inner: Box::new(t) }, k))
    } else if 0 <= j < s.len() && s[j] == '{' {
        match bound_at(s, j + 1) {
            Err(e) => Err(e),
            Ok((n, k)) => {
                let (e, k2) = eager_at(s, k);
                Ok((Tree::Repeat { eagerness: e, n, inner: Box::new(t) }, k2))
            },
        }
    } else {
        Ok((t, j))
    }
}

/// The entries of a class from `i` on, after the entries `acc`.
pub open spec fn class_at(s: Seq<char>, i: int, acc: Seq<ClassItem>) -> Parsed<Tree>
    decreases s.len() - i,
{
    if i < 0 || i >= s.len() {
        Err((ParseErrorCode::UnexpectedEnd, i))
    } else if s[i] == ']' {
        Ok((Tree::Bracketed(acc), i + 1))
    } else {
        match class_item_at(s, i) {
            None => Err((ParseErrorCode::InvalidRange, i)),
            Some((item, j)) => if i < j <= s.len() {
                class_at(s, j, acc.push(item))
            } else {
                Err((ParseErrorCode::UnexpectedEnd, i))
            },
        }
    }
}

/// The class entry at `i`: a range `a-b`, where `a <= b` (else `None`), or
/// a single character.
pub open spec fn class_item_at(s: Seq<char>, i: int) -> Option<(ClassItem, int)> {
    if 0 <= i && i + 2 < s.len() && s[i + 1] == '-' && s[i + 2] != ']' {
        if s[i] <= s[i + 2] {
            Some((ClassItem::Between(s[i], s[i + 2]), i + 3))
        } else {
            None
        }
    } else {
        Some((ClassItem::Single(s[i]), i + 1))
    }
}

/// `Sequence ('|' Sequence)*` from `i` on, after the branches `acc`.
pub open spec fn alt_at(s: Seq<char>, i: int, acc: Seq<Tree>) -> Parsed<Tree>
    decreases s.len() - i, 3int,
{
    if i < 0 || i > s.len() {
        Err((ParseErrorCode::UnexpectedEnd, i))
    } else {
        match seq_at(s, i, Seq::empty()) {
            Err(e) => Err(e),
            Ok((t, j)) => if i <= j < s.len() && s[j] == '|' {
                alt_at(s, j + 1, acc.push(t))
            } else {
                Ok((collapse_alt(acc.push(t)), j))
            },
        }
    }
}

/// `Atom*` from `i` on, after the atoms `acc`.
pub open spec fn seq_at(s: Seq<char>, i: int, acc: Seq<Tree>) -> Parsed<Tree>
    decreases s.len() - i, 2int,
{
    if i < 0 || i >= s.len() || s[i] == '|' || s[i] == ')' {
        Ok((collapse_seq(acc), i))
    } else {
        match atom_at(s, i) {
            Err(e) => Err(e),
            Ok((t, j)) => if i < j <= s.len() {
                seq_at(s, j, acc.push(t))
            } else {
                Err((ParseErrorCode::UnexpectedChar, i))
            },
        }
    }
}

/// One atom with its quantifier.
pub open spec fn atom_at(s: Seq<char>, i: int) -> Parsed<Tree>
    decreases s.len() - i, 1int,
{
    match base_at(s, i) {
        Err(e) => Err(e),
        Ok((t, j)) => quantified(s, j, t),
    }
}

/// One atom without its quantifier.
pub open spec fn base_at(s: Seq<char>, i: int) -> Parsed<Tree>
    decreases s.len() - i, 0int,
{
    if i < 0 || i >= s.len() {
        Err((ParseErrorCode::UnexpectedEnd, i))
    } else if s[i] == '(' {
        group_at(s, i + 1)
    } else if s[i] == '[' {
        class_at(s, i + 1, Seq::empty())
    } else if s[i] == '.' {
        Ok((Tree::Wildcard, i + 1))
    } else if s[i] == '^' {
        Ok((Tree::LineStart, i + 1))
    } else if s[i] == '$' {
        Ok((Tree::LineEnd, i + 1))
    } else if s[i] == '\\' {
        if i + 1 < s.len() {
            Ok((Tree::Literal(s[i + 1]), i + 2))
        } else {
            Err((ParseErrorCode::UnexpectedEnd, i + 1))
        }
    } else if is_special(s[i]) {
        Err((ParseErrorCode::UnexpectedChar, i))
    } else {
        Ok((Tree::Literal(s[i]), i + 1))
    }
}

/// A group, starting right after its `(`.
pub open spec fn group_at(s: Seq<char>, i: int) -> Parsed<Tree>
    decreases s.len() - i, 6int,
{
    if i < 0 || i >= s.len() {
        Err((ParseErrorCode::UnexpectedEnd, i))
    } else if s[i] != '?' {
        group_body_at(s, i, Some(CaptureTag::Index))
    } else if i + 1 >= s.len() {
        Err((ParseErrorCode::UnexpectedEnd, i + 1))
    } else if s[i + 1] == ':' {
        group_body_at(s, i + 2, None)
    } else if s[i + 1] == '<' {
        named_at(s, i + 2, '>', NamedCaptureFlavor::Angles)
    } else if s[i + 1] == '\'' {
        named_at(s, i + 2, '\'', NamedCaptureFlavor::Apostrophes)
    } else if s[i + 1] == 'P' {
        if i + 2 >= s.len() {
            Err((ParseErrorCode::UnexpectedEnd, i + 2))
        } else if s[i + 2] != '<' {
            Err((ParseErrorCode::UnexpectedChar, i + 2))
        } else {
            named_at(s, i + 3, '>', NamedCaptureFlavor::AnglesWithP)
        }
    } else {
        Err((ParseErrorCode::UnexpectedChar, i + 1))
    }
}

/// A group name ended by `term`, then the group's body.
pub open spec fn named_at(s: Seq<char>, k: int, term: char, flavor: NamedCaptureFlavor) -> Parsed<Tree>
    decreases s.len() - k, 5int,
{
    let e = find(s, k, term);
    if k < 0 || e >= s.len() {
        Err((ParseErrorCode::UnexpectedEnd, e))
    } else if e <= k {
        Err((ParseErrorCode::UnexpectedChar, k))
    } else {
        group_body_at(s, e + 1, Some(CaptureTag::Name(s.subrange(k, e), flavor)))
    }
}

/// The alternation inside a group and its closing `)`.
pub open spec fn group_body_at(s: Seq<char>, b: int, capture: Option<CaptureTag>) -> Parsed<Tree>
    decreases s.len() - b, 4int,
{
    if b < 0 || b > s.len() {
        Err((ParseErrorCode::UnexpectedEnd, b))
    } else {
        match alt_at(s, b, Seq::empty()) {
            Err(e) => Err(e),
            Ok((t, j)) => if j >= s.len() {
                Err((ParseErrorCode::UnexpectedEnd, j))
            } else if j >= 0 && s[j] == ')' {
                Ok((Tree::ParenGroup { capture, inner: Box::new(t) }, j + 1))
            } else {
                Err((ParseErrorCode::UnexpectedChar, j))
            },
        }
    }
}

/// The model of parsing the whole text `s`.
pub open spec fn parse_model(s: Seq<char>) -> Result<Tree, (ParseErrorCode, int)> {
    match alt_at(s, 0, Seq::empty()) {
        Err(e) => Err(e),
        Ok((t, j)) => if j >= s.len() {
            Ok(t)
        } else {
            Err((ParseErrorCode::UnexpectedChar, j))
        },
    }
}

/// The model of an exec parsing outcome.
pub open spec fn outcome(r: Result<(RegexPart, usize), (ParseErrorCode, usize)>) -> Parsed<Tree> {
    match r {
        Ok((t, j)) => Ok((t.view(), j as int)),
        Err((c, p)) => Err((c, p as int)),
    }
}

proof fn lemma_parts_view_push(s: Seq<RegexPart>, t: RegexPart)
    ensures
        parts_view(s.push(t)) == parts_view(s).push(t.view()),
{
    assert(s.push(t).subrange(0, s.len() as int) =~= s);
}

proof fn lemma_parts_view_index(s: Seq<RegexPart>)
    ensures
        parts_view(s).len() == s.len(),
        forall|i: int| 0 <= i < s.len() ==> #[trigger] parts_view(s)[i] == s[i].view(),
    decreases s.len(),
{
    if s.len() > 0 {
        lemma_parts_view_index(s.subrange(0, s.len() - 1));
    }
}

proof fn lemma_class_view_push(s: Seq<BracketedAlternative>, a: BracketedAlternative)
    ensures
        class_view(s.push(a)) == class_view(s).push(a.view()),
{
    let l = class_view(s.push(a));
    let r = class_view(s).push(a.view());
    assert forall|i: int| 0 <= i < l.len() implies l[i] == r[i] by {
        if i < s.len() {
            assert(s.push(a)[i] == s[i]);
        }
    }
    assert(l =~= r);
}

proof fn lemma_literal_view(c: char)
    ensures
        RegexPart::Literal(c).view() == Tree::Literal(c),
        well_formed(Tree::Literal(c)),
{
}

fn collapse_seq_exec(acc: Vec<RegexPart>) -> (r: RegexPart)
    ensures
        r.view() == collapse_seq(parts_view(acc@)),
        (forall|j: int| 0 <= j < acc.len() ==> well_formed(#[trigger] acc@[j].view())) ==> well_formed(r.view()),
{
    proof {
        lemma_parts_view_index(acc@);
    }
    if acc.len() == 0 {
        RegexPart::Empty
    } else if acc.len() == 1 {
        let mut acc = acc;
        acc.pop().unwrap()
    } else {
        RegexPart::Sequence(acc)
    }
}

fn collapse_alt_exec(acc: Vec<RegexPart>) -> (r: RegexPart)
    requires
        acc.len() >= 1,
    ensures
        r.view() == collapse_alt(parts_view(acc@)),
        (forall|j: int| 0 <= j < acc.len() ==> well_formed(#[trigger] acc@[j].view())) ==> well_formed(r.view()),
{
    proof {
        lemma_parts_view_index(acc@);
    }
    if acc.len() == 1 {
        let mut acc = acc;
        acc.pop().unwrap()
    } else {
        RegexPart::Alternatives(acc)
    }
}

fn eager_exec(s: &Vec<char>, k: usize) -> (r: (Eagerness, usize))
    requires
        k <= s.len(),
    ensures
        (r.0, r.1 as int) == eager_at(s@, k as int),
        r.1 <= s.len(),
{
    if k < s.len() && s[k] == '?' {
        (Eagerness::Lazy, k + 1)
    } else if k < s.len() && s[k] == '+' {
        (Eagerness::Possessive, k + 1)
    } else {
        (Eagerness::Greedy, k)
    }
}

/// Reads the digits at `k`: where they end, and their value unless it
/// exceeds `usize::MAX`.
fn read_number(s: &Vec<char>, k: usize) -> (r: (usize, Option<usize>))
    requires
        k <= s.len(),
    ensures
        r.0 as int == digits_end(s@, k as int),
        k <= r.0 <= s.len(),
        r.1 == (if number(s@, k as int, r.0 as int) <= usize::MAX {
            Some(number(s@, k as int, r.0 as int) as usize)
        } else {
            None::<usize>
        }),
{
    let mut j: usize = k;
    let mut v: usize = 0;
    let mut over = false;
    while j < s.len() && '0' <= s[j] && s[j] <= '9'
        invariant
            k <= j <= s.len(),
            digits_end(s@, k as int) == digits_end(s@, j as int),
            over ==> number(s@, k as int, j as int) > usize::MAX,
            !over ==> v == number(s@, k as int, j as int),
        decreases s.len() - j,
    {
        let d = (s[j] as u32 - '0' as u32) as usize;
        assert(d == digit_value(s@[j as int]));
        assert(number(s@, k as int, j + 1) == number(s@, k as int, j as int) * 10 + d);
        if !over {
            if v > (usize::MAX - d) / 10 {
                assert(v * 10 + d > usize::MAX) by (nonlinear_arith)
                    requires v > (usize::MAX - d) / 10, d <= 9;
                over = true;
            } else {
                assert(v * 10 + d <= usize::MAX) by (nonlinear_arith)
                    requires v <= (usize::MAX - d) / 10, d <= 9;
                v = v * 10 + d;
            }
        }
        j = j + 1;
    }
    if over {
        (j, None)
    } else {
        (j, Some(v))
    }
}

pub open spec fn reps_outcome(r: Result<(RepeatSpec, usize), (ParseErrorCode, usize)>) -> Parsed<Reps> {
    match r {
        Ok((n, j)) => Ok((n.view(), j as int)),
        Err((c, p)) => Err((c, p as int)),
    }
}

fn bound_exec(s: &Vec<char>, k: usize) -> (r: Result<(RepeatSpec, usize), (ParseErrorCode, usize)>)
    requires
        k <= s.len(),
    ensures
        reps_outcome(r) == bound_at(s@, k as int),
        r matches Ok((_, j)) ==> k < j <= s.len(),
{
    let (e1, n) = read_number(s, k);
    if e1 >= s.len() {
        return Err((ParseErrorCode::UnexpectedEnd, e1));
    }
    if e1 > k && n.is_none() {
        return Err((ParseErrorCode::InvalidRange, k));
    }
    if s[e1] == '}' {
        if e1 > k {
            Ok((RepeatSpec::Exactly(n.unwrap()), e1 + 1))
        } else {
            Err((ParseErrorCode::UnexpectedChar, e1))
        }
    } else if s[e1] == ',' {
        let (e2, m) = read_number(s, e1 + 1);
        if e2 >= s.len() {
            Err((ParseErrorCode::UnexpectedEnd, e2))
        } else if e2 > e1 + 1 && m.is_none() {
            Err((ParseErrorCode::InvalidRange, e1 + 1))
        } else if s[e2] != '}' {
            Err((ParseErrorCode::UnexpectedChar, e2))
        } else if e1 > k && e2 > e1 + 1 {
            let lo = n.unwrap();
            let hi = m.unwrap();
            match Range::<usize>::new(lo, hi) {
                Ok(g) => Ok((RepeatSpec::Range(g), e2 + 1)),
                Err(_) => Err((ParseErrorCode::InvalidRange, k)),
            }
        } else if e1 > k {
            Ok((RepeatSpec::AtLeast(n.unwrap()), e2 + 1))
        } else if e2 > e1 + 1 {
            Ok((RepeatSpec::AtMost(m.unwrap()), e2 + 1))
        } else {
            Err((ParseErrorCode::UnexpectedChar, e2))
        }
    } else {
        Err((ParseErrorCode::UnexpectedChar, e1))
    }
}

fn quantified_exec(s: &Vec<char>, j: usize, t: RegexPart) -> (r: Result<(RegexPart, usize), (ParseErrorCode, usize)>)
    requires
        j <= s.len(),
    ensures
        outcome(r) == quantified(s@, j as int, t.view()),
        r matches Ok((_, k)) ==> j <= k <= s.len(),
        r matches Ok((u, _)) ==> (well_formed(t.view()) ==> well_formed(u.view())),
{
    if j < s.len() && s[j] == '?' {
        Ok((RegexPart::Optional(Box::new(t)), j + 1))
    } else if j < s.len() && s[j] == '*' {
        let (e, k) = eager_exec(s, j + 1);
        Ok((RegexPart::ZeroOrMore { eagerness: e, inner: Box::new(t) }, k))
    } else if j < s.len() && s[j] == '+' {
        let (e, k) = eager_exec(s, j + 1);
        Ok((RegexPart::OneOrMore { eagerness: e, inner: Box::new(t) }, k))
    } else if j < s.len() && s[j] == '{' {
        match bound_exec(s, j + 1) {
            Err(e) => Err(e),
            Ok((n, k)) => {
                let (e, k2) = eager_exec(s, k);
                Ok((RegexPart::Repeat { eagerness: e, n, inner: Box::new(t) }, k2))
            },
        }
    } else {
        Ok((t, j))
    }
}

fn class_item_exec(s: &Vec<char>, i: usize) -> (r: Option<(BracketedAlternative, usize)>)
    requires
        i < s.len(),
    ensures
        class_item_at(s@, i as int) == match r {
            Some((a, j)) => Some((a.view(), j as int)),
            None => None::<(ClassItem, int)>,
        },
{
    if s.len() - i > 2 && s[i + 1] == '-' && s[i + 2] != ']' {
        match Range::<char>::new(s[i], s[i + 2]) {
            Ok(g) => Some((BracketedAlternative::Range(g), i + 3)),
            Err(_) => None,
        }
    } else {
        Some((BracketedAlternative::Single(s[i]), i + 1))
    }
}

fn class_exec(s: &Vec<char>, i: usize) -> (r: Result<(RegexPart, usize), (ParseErrorCode, usize)>)
    requires
        i <= s.len(),
    ensures
        outcome(r) == class_at(s@, i as int, Seq::empty()),
        r matches Ok((t, k)) ==> i < k <= s.len() && well_formed(t.view()),
{
    let mut acc: Vec<BracketedAlternative> = Vec::new();
    let mut p: usize = i;
    assert(class_view(acc@) =~= Seq::<ClassItem>::empty());
    loop
        invariant
            i <= p <= s.len(),
            class_at(s@, i as int, Seq::empty()) == class_at(s@, p as int, class_view(acc@)),
        decreases s.len() - p,
    {
        if p >= s.len() {
            return Err((ParseErrorCode::UnexpectedEnd, p));
        }
        if s[p] == ']' {
            return Ok((RegexPart::Bracketed(Bracketed { alternatives: acc }), p + 1));
        }
        match class_item_exec(s, p) {
            None => {
                return Err((ParseErrorCode::InvalidRange, p));
            },
            Some((a, j)) => {
                proof {
                    lemma_class_view_push(acc@, a);
                }
                if j <= p || j > s.len() {
                    return Err((ParseErrorCode::UnexpectedEnd, p));
                }
                acc.push(a);
                p = j;
            },
        }
    }
}

/// The first `term` at or after `k`, or the length of `s`.
fn find_exec(s: &Vec<char>, k: usize, term: char) -> (r: usize)
    requires
        k <= s.len(),
    ensures
        r as int == find(s@, k as int, term),
        k <= r <= s.len(),
{
    let mut j: usize = k;
    while j < s.len() && s[j] != term
        invariant
            k <= j <= s.len(),
            find(s@, k as int, term) == find(s@, j as int, term),
        decreases s.len() - j,
    {
        j = j + 1;
    }
    j
}

/// The characters `s[a..b]` as a `String`.
fn string_of(s: &Vec<char>, a: usize, b: usize) -> (r: String)
    requires
        a <= b <= s.len(),
    ensures
        r@ == s@.subrange(a as int, b as int),
{
    let mut out = String::new();
    let mut j: usize = a;
    while j < b
        invariant
            a <= j <= b <= s.len(),
            out@ == s@.subrange(a as int, j as int),
        decreases b - j,
    {
        push_char(&mut out, s[j]);
        assert(s@.subrange(a as int, j + 1) =~= s@.subrange(a as int, j as int).push(s@[j as int]));
        j = j + 1;
    }
    out
}

fn alt_exec(s: &Vec<char>, i: usize) -> (r: Result<(RegexPart, usize), (ParseErrorCode, usize)>)
    requires
        i <= s.len(),
    ensures
        outcome(r) == alt_at(s@, i as int, Seq::empty()),
        r matches Ok((t, k)) ==> i <= k <= s.len() && well_formed(t.view()),
    decreases s.len() - i, 3int,
{
    let mut acc: Vec<RegexPart> = Vec::new();
    let mut p: usize = i;
    assert(parts_view(acc@) =~= Seq::<Tree>::empty());
    loop
        invariant
            i <= p <= s.len(),
            alt_at(s@, i as int, Seq::empty()) == alt_at(s@, p as int, parts_view(acc@)),
            forall|j: int| 0 <= j < acc.len() ==> well_formed(#[trigger] acc@[j].view()),
        decreases s.len() - p,
    {
        match seq_exec(s, p) {
            Err(e) => {
                return Err(e);
            },
            Ok((t, j)) => {
                proof {
                    lemma_parts_view_push(acc@, t);
                }
                let more = j < s.len() && s[j] == '|';
                acc.push(t);
                if more {
                    p = j + 1;
                } else {
                    return Ok((collapse_alt_exec(acc), j));
                }
            },
        }
    }
}

fn seq_exec(s: &Vec<char>, i: usize) -> (r: Result<(RegexPart, usize), (ParseErrorCode, usize)>)
    requires
        i <= s.len(),
    ensures
        outcome(r) == seq_at(s@, i as int, Seq::empty()),
        r matches Ok((t, k)) ==> i <= k <= s.len() && well_formed(t.view()),
    decreases s.len() - i, 2int,
{
    let mut acc: Vec<RegexPart> = Vec::new();
    let mut p: usize = i;
    assert(parts_view(acc@) =~= Seq::<Tree>::empty());
    loop
        invariant
            i <= p <= s.len(),
            seq_at(s@, i as int, Seq::empty()) == seq_at(s@, p as int, parts_view(acc@)),
            forall|j: int| 0 <= j < acc.len() ==> well_formed(#[trigger] acc@[j].view()),
        decreases s.len() - p,
    {
        if p >= s.len() || s[p] == '|' || s[p] == ')' {
            return Ok((collapse_seq_exec(acc), p));
        }
        match atom_exec(s, p) {
            Err(e) => {
                return Err(e);
            },
            Ok((t, j)) => {
                if j <= p || j > s.len() {
                    return Err((ParseErrorCode::UnexpectedChar, p));
                }
                proof {
                    lemma_parts_view_push(acc@, t);
                }
                acc.push(t);
                p = j;
            },
        }
    }
}

fn atom_exec(s: &Vec<char>, i: usize) -> (r: Result<(RegexPart, usize), (ParseErrorCode, usize)>)
    requires
        i < s.len(),
    ensures
        outcome(r) == atom_at(s@, i as int),
        r matches Ok((t, k)) ==> i < k <= s.len() && well_formed(t.view()),
    decreases s.len() - i, 1int,
{
    match base_exec(s, i) {
        Err(e) => Err(e),
        Ok((t, j)) => quantified_exec(s, j, t),
    }
}

fn base_exec(s: &Vec<char>, i: usize) -> (r: Result<(RegexPart, usize), (ParseErrorCode, usize)>)
    requires
        i < s.len(),
    ensures
        outcome(r) == base_at(s@, i as int),
        r matches Ok((t, k)) ==> i < k <= s.len() && well_formed(t.view()),
    decreases s.len() - i, 0int,
{
    let c = s[i];
    if c == '(' {
        return group_exec(s, i + 1);
    }
    if c == '[' {
        return class_exec(s, i + 1);
    }
    if c == '.' {
        return Ok((RegexPart::Wildcard, i + 1));
    }
    if c == '^' {
        return Ok((RegexPart::LineStart, i + 1));
    }
    if c == '$' {
        return Ok((RegexPart::LineEnd, i + 1));
    }
    if c == '\\' {
        if i + 1 < s.len() {
            let d = s[i + 1];
            assert(base_at(s@, i as int) == Ok::<(Tree, int), (ParseErrorCode, int)>((Tree::Literal(d), i + 2)));
            let t = RegexPart::Literal(d);
            proof {
                lemma_literal_view(d);
            }
            return Ok((t, i + 2));
        } else {
            return Err((ParseErrorCode::UnexpectedEnd, i + 1));
        }
    }
    if c == '|' || c == ')' || c == '*' || c == '+' || c == '?' || c == '{' {
        return Err((ParseErrorCode::UnexpectedChar, i));
    }
    assert(!is_special(c));
    assert(base_at(s@, i as int) == Ok::<(Tree, int), (ParseErrorCode, int)>((Tree::Literal(c), i + 1)));
    let t = RegexPart::Literal(c);
    proof {
        lemma_literal_view(c);
    }
    Ok((t, i + 1))
}

fn group_exec(s: &Vec<char>, i: usize) -> (r: Result<(RegexPart, usize), (ParseErrorCode, usize)>)
    requires
        i <= s.len(),
    ensures
        outcome(r) == group_at(s@, i as int),
        r matches Ok((t, k)) ==> i < k <= s.len() && well_formed(t.view()),
    decreases s.len() - i, 6int,
{
    if i >= s.len() {
        Err((ParseErrorCode::UnexpectedEnd, i))
    } else if s[i] != '?' {
        group_body_exec(s, i, Some(Capture::Index))
    } else if i + 1 >= s.len() {
        Err((ParseErrorCode::UnexpectedEnd, i + 1))
    } else if s[i + 1] == ':' {
        group_body_exec(s, i + 2, None)
    } else if s[i + 1] == '<' {
        named_exec(s, i + 2, '>', NamedCaptureFlavor::Angles)
    } else if s[i + 1] == '\'' {
        named_exec(s, i + 2, '\'', NamedCaptureFlavor::Apostrophes)
    } else if s[i + 1] == 'P' {
        if i + 2 >= s.len() {
            Err((ParseErrorCode::UnexpectedEnd, i + 2))
        } else if s[i + 2] != '<' {
            Err((ParseErrorCode::UnexpectedChar, i + 2))
        } else {
            named_exec(s, i + 3, '>', NamedCaptureFlavor::AnglesWithP)
        }
    } else {
        Err((ParseErrorCode::UnexpectedChar, i + 1))
    }
}

fn named_exec(s: &Vec<char>, k: usize, term: char, flavor: NamedCaptureFlavor) -> (r: Result<(RegexPart, usize), (ParseErrorCode, usize)>)
    requires
        k <= s.len(),
    ensures
        outcome(r) == named_at(s@, k as int, term, flavor),
        r matches Ok((t, j)) ==> k < j <= s.len() && well_formed(t.view()),
    decreases s.len() - k, 5int,
{
    let e = find_exec(s, k, term);
    if e >= s.len() {
        Err((ParseErrorCode::UnexpectedEnd, e))
    } else if e <= k {
        Err((ParseErrorCode::UnexpectedChar, k))
    } else {
        let name = string_of(s, k, e);
        group_body_exec(s, e + 1, Some(Capture::Name { name, flavor }))
    }
}

fn group_body_exec(s: &Vec<char>, b: usize, capture: Option<Capture>) -> (r: Result<(RegexPart, usize), (ParseErrorCode, usize)>)
    requires
        b <= s.len(),
    ensures
        outcome(r) == group_body_at(s@, b as int, capture_view(capture)),
        r matches Ok((t, j)) ==> b < j <= s.len() && well_formed(t.view()),
    decreases s.len() - b, 4int,
{
    match alt_exec(s, b) {
        Err(e) => Err(e),
        Ok((t, j)) => if j >= s.len() {
            Err((ParseErrorCode::UnexpectedEnd, j))
        } else if s[j] == ')' {
            Ok((RegexPart::ParenGroup { capture, inner: Box::new(t) }, j + 1))
        } else {
            Err((ParseErrorCode::UnexpectedChar, j))
        },
    }
}

/// The model of a public parsing outcome: the tree, or the error kind and
/// its offset.
pub open spec fn parse_outcome(r: Result<RegexPart, ParseError>) -> Result<Tree, (ParseErrorCode, int)> {
    match r {
        Ok(t) => Ok(t.view()),
        Err(e) => Err((e.code, e.position as int)),
    }
}

/// A message for `code`, followed by up to eight characters of the pattern
/// from `pos` on.
fn hint_for(code: ParseErrorCode, s: &Vec<char>, pos: usize) -> String {
    let mut h = String::from_str(match code {
        ParseErrorCode::ExpectedEnd => "expected the end of the pattern",
        ParseErrorCode::UnexpectedChar => "unexpected character",
        ParseErrorCode::UnexpectedEnd => "unexpected end of the pattern",
        ParseErrorCode::InvalidRange => "cannot construct a range with min greater than max",
    });
    if pos < s.len() {
        h.append(" at: ");
        let mut j: usize = pos;
        while j < s.len() && j - pos < 8
            invariant
                pos <= j <= s.len(),
            decreases s.len() - j,
        {
            push_char(&mut h, s[j]);
            j = j + 1;
        }
    }
    h
}

/// Parses a whole pattern.
pub fn parse(text: &str) -> (r: Result<RegexPart, ParseError>)
    ensures
        parse_outcome(r) == parse_model(text@),
        r matches Ok(t) ==> well_formed(t.view()),
{
    let s = chars_of(text);
    match alt_exec(&s, 0) {
        Err((code, pos)) => Err(ParseError { code, position: pos, hint: hint_for(code, &s, pos) }),
        Ok((t, j)) => if j >= s.len() {
            Ok(t)
        } else {
            let code = ParseErrorCode::UnexpectedChar;
            Err(ParseError { code, position: j, hint: hint_for(code, &s, j) })
        },
    }
}

/// A pattern parser; it holds no state.
pub struct RegexParser;

impl RegexParser {
    pub fn new() -> Self {
        RegexParser
    }

    /// Parses a whole pattern.
    pub fn parse(&self, text: &str) -> (r: Result<RegexPart, ParseError>)
        ensures
            parse_outcome(r) == parse_model(text@),
            r matches Ok(t) ==> well_formed(t.view()),
    {
        parse(text)
    }
}

/// Parsing is a function of the text alone: two outcomes of parsing the
/// same text are equal.
pub proof fn parse_is_pure(
    text: Seq<char>,
    r1: Result<RegexPart, ParseError>,
    r2: Result<RegexPart, ParseError>,
)
    requires
        parse_outcome(r1) == parse_model(text),
        parse_outcome(r2) == parse_model(text),
    ensures
        parse_outcome(r1) == parse_outcome(r2),
{
}

} // verus!

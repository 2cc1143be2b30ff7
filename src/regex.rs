//! The syntax tree produced by the parser and walked by the matcher, and
//! its mathematical model.
use vstd::prelude::*;
use crate::range::Range;

verus! {

/// A parsed pattern.
#[derive(Debug, Eq, PartialEq)]
pub struct Regex {
    pub root_part: RegexPart,
}

/// One node of the syntax tree.
#[derive(Debug, Eq, PartialEq)]
pub enum RegexPart {
    Empty,
    Literal(char),
    /// `.`: any one character.
    Wildcard,
    Alternatives(Vec<RegexPart>),
    Sequence(Vec<RegexPart>),
    Bracketed(Bracketed),
    ParenGroup { capture: Option<Capture>, inner: Box<RegexPart> },
    LineStart,
    LineEnd,
    Optional(Box<RegexPart>),
    ZeroOrMore { eagerness: Eagerness, inner: Box<RegexPart> },
    OneOrMore { eagerness: Eagerness, inner: Box<RegexPart> },
    Repeat { eagerness: Eagerness, n: RepeatSpec, inner: Box<RegexPart> },
}

/// A character class: `[...]`.
#[derive(Debug, Clone, Eq, PartialEq)]
pub struct Bracketed {
    pub alternatives: Vec<BracketedAlternative>,
}

/// One entry of a character class.
#[derive(Debug, Clone, Eq, PartialEq, Hash)]
pub enum BracketedAlternative {
    Single(char),
    Range(Range<char>),
}

/// How a group captures: by number only, or by number and name.
#[derive(Debug, Clone, Eq, PartialEq, Hash)]
pub enum Capture {
    Index,
    Name { name: String, flavor: NamedCaptureFlavor },
}

/// The syntax a named group was written in.
#[derive(Debug, Copy, Clone, Eq, PartialEq, Hash, Structural)]
pub enum NamedCaptureFlavor {
    /// `(?P<name>group)`
    AnglesWithP,
    /// `(?<name>group)`
    Angles,
    /// `(?'name'group)`
    Apostrophes,
}

/// The order in which a quantifier tries repetition counts.
#[derive(Debug, Copy, Clone, Eq, PartialEq, Hash, Structural)]
pub enum Eagerness {
    Greedy,
    Lazy,
    Possessive,
}

/// The counts a `{...}` quantifier admits.
#[derive(Debug, Copy, Clone, Eq, PartialEq, Hash)]
pub enum RepeatSpec {
    Exactly(usize),
    AtLeast(usize),
    AtMost(usize),
    Range(Range<usize>),
}

/// The model of a syntax tree.
pub enum Tree {
    Empty,
    Literal(char),
    Wildcard,
    Alternatives(Seq<Tree>),
    Sequence(Seq<Tree>),
    Bracketed(Seq<ClassItem>),
    ParenGroup { capture: Option<CaptureTag>, inner: Box<Tree> },
    LineStart,
    LineEnd,
    Optional(Box<Tree>),
    ZeroOrMore { eagerness: Eagerness, inner: Box<Tree> },
    OneOrMore { eagerness: Eagerness, inner: Box<Tree> },
    Repeat { eagerness: Eagerness, n: Reps, inner: Box<Tree> },
}

/// The model of a `RepeatSpec`.
pub enum Reps {
    Exactly(nat),
    AtLeast(nat),
    AtMost(nat),
    Between(nat, nat),
}

impl RepeatSpec {
    pub open spec fn view(&self) -> Reps {
        match self {
            RepeatSpec::Exactly(k) => Reps::Exactly(*k as nat),
            RepeatSpec::AtLeast(k) => Reps::AtLeast(*k as nat),
            RepeatSpec::AtMost(k) => Reps::AtMost(*k as nat),
            RepeatSpec::Range(r) => Reps::Between(r.lo() as nat, r.hi() as nat),
        }
    }
}

/// The model of a class entry.
pub enum ClassItem {
    Single(char),
    Between(char, char),
}

/// The model of a capture tag.
pub enum CaptureTag {
    Index,
    Name(Seq<char>, NamedCaptureFlavor),
}

impl BracketedAlternative {
    pub open spec fn view(&self) -> ClassItem {
        match self {
            BracketedAlternative::Single(c) => ClassItem::Single(*c),
            BracketedAlternative::Range(r) => ClassItem::Between(r.lo(), r.hi()),
        }
    }
}

impl Capture {
    pub open spec fn view(&self) -> CaptureTag {
        match self {
            Capture::Index => CaptureTag::Index,
            Capture::Name { name, flavor } => CaptureTag::Name(name@, *flavor),
        }
    }
}

pub open spec fn class_view(s: Seq<BracketedAlternative>) -> Seq<ClassItem> {
    s.map_values(|a: BracketedAlternative| a.view())
}

pub open spec fn capture_view(c: Option<Capture>) -> Option<CaptureTag> {
    match c {
        Some(k) => Some(k.view()),
        None => None,
    }
}

impl RegexPart {
    pub open spec fn view(&self) -> Tree
        decreases self,
    {
        match self {
            RegexPart::Empty => Tree::Empty,
            RegexPart::Literal(c) => Tree::Literal(*c),
            RegexPart::Wildcard => Tree::Wildcard,
            RegexPart::Alternatives(v) => Tree::Alternatives(parts_view(v@)),
            RegexPart::Sequence(v) => Tree::Sequence(parts_view(v@)),
            RegexPart::Bracketed(b) => Tree::Bracketed(class_view(b.alternatives@)),
            RegexPart::ParenGroup { capture, inner } => Tree::ParenGroup {
                capture: capture_view(*capture),
                inner: Box::new((**inner).view()),
            },
            RegexPart::LineStart => Tree::LineStart,
            RegexPart::LineEnd => Tree::LineEnd,
            RegexPart::Optional(inner) => Tree::Optional(Box::new((**inner).view())),
            RegexPart::ZeroOrMore { eagerness, inner } => Tree::ZeroOrMore {
                eagerness: *eagerness,
                inner: Box::new((**inner).view()),
            },
            RegexPart::OneOrMore { eagerness, inner } => Tree::OneOrMore {
                eagerness: *eagerness,
                inner: Box::new((**inner).view()),
            },
            RegexPart::Repeat { eagerness, n, inner } => Tree::Repeat {
                eagerness: *eagerness,
                n: n.view(),
                inner: Box::new((**inner).view()),
            },
        }
    }
}

/// The models of a list of nodes, in order.
pub open spec fn parts_view(s: Seq<RegexPart>) -> Seq<Tree>
    decreases s,
{
    if s.len() == 0 {
        Seq::empty()
    } else {
        parts_view(s.subrange(0, s.len() - 1)).push(s[s.len() - 1].view())
    }
}

/// No `Sequence` or `Alternatives` node of the tree has fewer than two
/// children.
pub open spec fn well_formed(t: Tree) -> bool
    decreases t,
{
    match t {
        Tree::Alternatives(s) => s.len() >= 2 && forall|i: int| 0 <= i < s.len() ==> #[trigger] well_formed(s[i]),
        Tree::Sequence(s) => s.len() >= 2 && forall|i: int| 0 <= i < s.len() ==> #[trigger] well_formed(s[i]),
        Tree::ParenGroup { inner, .. } => well_formed(*inner),
        Tree::Optional(inner) => well_formed(*inner),
        Tree::ZeroOrMore { inner, .. } => well_formed(*inner),
        Tree::OneOrMore { inner, .. } => well_formed(*inner),
        Tree::Repeat { inner, .. } => well_formed(*inner),
        _ => true,
    }
}

} // verus!

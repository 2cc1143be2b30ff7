//! Backtracking matching of a syntax tree against a whole input, with a
//! trace of every decision the search makes.
//!
//! Decisions on the points the tree leaves open:
//! - `Optional` prefers the inner part present, then tries it absent;
//! - when two groups share a name, the name keeps the span recorded last;
//! - `LineStart` / `LineEnd` hold only at the start / end of the input;
//! - a repetition beyond the minimum that consumes nothing is rejected, so
//!   that nested quantifiers cannot loop.
use vstd::prelude::*;
use crate::regex::{BracketedAlternative, Capture, Eagerness, RegexPart, RepeatSpec};

verus! {

/// A half-open span `[start, end)` of character offsets into the input.
#[derive(Debug, Copy, Clone, PartialEq, Eq, Structural)]
pub struct Span(pub usize, pub usize);

impl Span {
    /// The offset the span starts at.
    pub fn index(&self) -> (r: usize)
        ensures
            r == self.0,
    {
        self.0
    }

    /// The number of characters in the span.
    pub fn length(&self) -> (r: usize)
        requires
            self.0 <= self.1,
        ensures
            r == self.1 - self.0,
    {
        self.1 - self.0
    }
}

/// Why an attempt failed.
#[derive(Debug, Copy, Clone, PartialEq, Eq, Structural)]
pub enum FailureReason {
    /// No character was left.
    EndOfInput,
    /// A character class does not hold the character.
    ExcludedChar,
    /// The character is not the one the pattern asks for.
    OtherChar,
    /// Every option of a choice point failed.
    OptionsExhausted,
}

impl FailureReason {
    /// Why the attempt failed, in words.
    pub fn explanation(&self) -> (r: &'static str)
        ensures
            r@ == match self {
                FailureReason::EndOfInput => "the input string has ended prematurely"@,
                FailureReason::ExcludedChar => "the character from the string was not in the allowed set"@,
                FailureReason::OtherChar => "the character from the string did not coincide with the pattern"@,
                FailureReason::OptionsExhausted => "no more options were left"@,
            },
    {
        match self {
            FailureReason::EndOfInput => "the input string has ended prematurely",
            FailureReason::ExcludedChar => "the character from the string was not in the allowed set",
            FailureReason::OtherChar => "the character from the string did not coincide with the pattern",
            FailureReason::OptionsExhausted => "no more options were left",
        }
    }
}

/// The outcome of an attempt to consume one character.
#[derive(Debug, Copy, Clone, PartialEq, Eq, Structural)]
pub enum Attempt {
    Success { string_span: Span },
    Failure { string_pos: usize, failure_reason: FailureReason },
}

/// How a quantifier concluded.
#[derive(Debug, Copy, Clone, PartialEq, Eq, Structural)]
pub enum QuantifierEnd {
    Success { string_span: Span, num_repetitions: usize },
    Failure { string_pos: usize, failure_reason: FailureReason },
}

/// How an alternation concluded.
#[derive(Debug, Copy, Clone, PartialEq, Eq, Structural)]
pub enum AlternativesEnd {
    Success { string_span: Span, alternative_chosen: usize },
    Failure { string_pos: usize, failure_reason: FailureReason },
}

/// One record of the trace.
#[derive(Debug, Copy, Clone, PartialEq, Eq, Structural)]
pub enum Step {
    MatchLiteral { literal: char, attempt: Attempt },
    MatchWildcard(Attempt),
    MatchCharClass(Attempt),
    MatchStar { string_pos: usize },
    MatchPlus { string_pos: usize },
    MatchOptional { string_pos: usize },
    FinishStar(QuantifierEnd),
    FinishPlus(QuantifierEnd),
    FinishOptional(QuantifierEnd),
    BeginGroup { string_pos: usize },
    EndGroup { string_pos: usize },
    MatchAlternatives { string_pos: usize },
    FinishAlternatives(AlternativesEnd),
    /// The search gave up the current path and resumes at `string_pos`,
    /// right after the step numbered `continue_after_step`.
    Backtrack { string_pos: usize, continue_after_step: usize },
    End { string_pos: usize, success: bool },
}

/// Which trace records a quantifier uses: `*` (also `{..}`), `+` or `?`.
#[derive(Debug, Copy, Clone, PartialEq, Eq, Structural)]
pub enum QuantKind {
    Star,
    Plus,
    Optional,
}

/// A quantifier under way: `count` repetitions are done, the last of them
/// started at `iter_start`, the whole at `start`.
#[derive(Copy, Clone)]
pub struct LoopState<'a> {
    pub kind: QuantKind,
    pub inner: &'a RegexPart,
    pub base: usize,
    pub eagerness: Eagerness,
    pub min: usize,
    pub max: Option<usize>,
    pub count: usize,
    pub start: usize,
    pub iter_start: usize,
}

/// One entry of the continuation: what is left to match, the next entry
/// last.
#[derive(Copy, Clone)]
pub enum Work<'a> {
    /// Match `part`; `base` capturing groups open before it.
    Node { part: &'a RegexPart, base: usize },
    /// Match `items[next..]` in order.
    SeqFrom { items: &'a Vec<RegexPart>, next: usize, base: usize },
    /// Record that branch `chosen` of an alternation begun at `start` matched.
    FinishAlt { chosen: usize, start: usize },
    /// Close a group opened at `start`; `group` is 0 for a non-capturing one.
    EndGroup { group: usize, name: Option<&'a String>, start: usize },
    /// Decide on the next repetition of a quantifier.
    Loop(LoopState<'a>),
    /// Stop here with success, wherever the input stands.
    Accept,
}

/// The captures recorded along a path: by group number and by name, each
/// key once, in the order of first recording.
pub struct CapsModel {
    pub by_index: Seq<(usize, Span)>,
    pub by_name: Seq<(Seq<char>, Span)>,
}

/// How a search ended: matched at a position with captures, failed at a
/// position, or ran out of its budget.
pub enum Outcome {
    Matched(usize, CapsModel),
    Failed(usize),
    Exhausted,
}

/// The number of capturing groups in `p`.
pub open spec fn ncaps(p: RegexPart) -> nat
    decreases p,
{
    match p {
        RegexPart::Alternatives(v) => ncaps_seq(v@),
        RegexPart::Sequence(v) => ncaps_seq(v@),
        RegexPart::ParenGroup { capture, inner } => (if capture is Some { 1nat } else { 0nat }) + ncaps(*inner),
        RegexPart::Optional(inner) => ncaps(*inner),
        RegexPart::ZeroOrMore { inner, .. } => ncaps(*inner),
        RegexPart::OneOrMore { inner, .. } => ncaps(*inner),
        RegexPart::Repeat { inner, .. } => ncaps(*inner),
        _ => 0,
    }
}

/// The number of capturing groups in a list of parts.
pub open spec fn ncaps_seq(s: Seq<RegexPart>) -> nat
    decreases s,
{
    if s.len() == 0 {
        0
    } else {
        ncaps(s[0]) + ncaps_seq(s.subrange(1, s.len() as int))
    }
}

/// The first position at or after `j` whose key is `k`, or the length.
pub open spec fn index_pos(t: Seq<(usize, Span)>, k: usize, j: int) -> int
    decreases t.len() - j,
{
    if 0 <= j < t.len() && t[j].0 != k {
        index_pos(t, k, j + 1)
    } else {
        j
    }
}

/// The first position at or after `j` whose key is `k`, or the length.
pub open spec fn name_pos(t: Seq<(Seq<char>, Span)>, k: Seq<char>, j: int) -> int
    decreases t.len() - j,
{
    if 0 <= j < t.len() && t[j].0 != k {
        name_pos(t, k, j + 1)
    } else {
        j
    }
}

/// `t` with key `k` mapped to `v`.
pub open spec fn put_index(t: Seq<(usize, Span)>, k: usize, v: Span) -> Seq<(usize, Span)> {
    let p = index_pos(t, k, 0);
    if p < t.len() {
        t.update(p, (k, v))
    } else {
        t.push((k, v))
    }
}

/// `t` with key `k` mapped to `v`.
pub open spec fn put_name(t: Seq<(Seq<char>, Span)>, k: Seq<char>, v: Span) -> Seq<(Seq<char>, Span)> {
    let p = name_pos(t, k, 0);
    if p < t.len() {
        t.update(p, (k, v))
    } else {
        t.push((k, v))
    }
}

/// The captures after group `group` (none when 0), named `name`, matched
/// `span`.
pub open spec fn record(c: CapsModel, group: usize, name: Option<&String>, span: Span) -> CapsModel {
    if group == 0 {
        c
    } else {
        CapsModel {
            by_index: put_index(c.by_index, group, span),
            by_name: match name {
                Some(n) => put_name(c.by_name, n@, span),
                None => c.by_name,
            },
        }
    }
}

/// A class entry holds `c`.
pub open spec fn entry_holds(a: BracketedAlternative, c: char) -> bool {
    match a {
        BracketedAlternative::Single(x) => x == c,
        BracketedAlternative::Range(r) => r.lo() <= c && c <= r.hi(),
    }
}

/// Some entry of the class holds `c`.
pub open spec fn class_holds(items: Seq<BracketedAlternative>, c: char) -> bool {
    exists|i: int| 0 <= i < items.len() && entry_holds(#[trigger] items[i], c)
}

pub open spec fn open_step(kind: QuantKind, pos: usize) -> Step {
    match kind {
        QuantKind::Star => Step::MatchStar { string_pos: pos },
        QuantKind::Plus => Step::MatchPlus { string_pos: pos },
        QuantKind::Optional => Step::MatchOptional { string_pos: pos },
    }
}

pub open spec fn finish_step(kind: QuantKind, e: QuantifierEnd) -> Step {
    match kind {
        QuantKind::Star => Step::FinishStar(e),
        QuantKind::Plus => Step::FinishPlus(e),
        QuantKind::Optional => Step::FinishOptional(e),
    }
}

pub open spec fn finish_ok(l: LoopState, pos: usize) -> Step {
    finish_step(l.kind, QuantifierEnd::Success { string_span: Span(l.start, pos), num_repetitions: l.count })
}

pub open spec fn finish_fail(l: LoopState, pos: usize) -> Step {
    finish_step(l.kind, QuantifierEnd::Failure { string_pos: pos, failure_reason: FailureReason::OptionsExhausted })
}

/// The number of the last step of `tr`: where a search resumed from a
/// choice point made now continues.
pub open spec fn mark(tr: Seq<Step>) -> usize {
    if tr.len() == 0 {
        0
    } else {
        (tr.len() - 1) as usize
    }
}

/// The bounds `(min, max)` of a repetition count.
pub open spec fn bounds(n: RepeatSpec) -> (usize, Option<usize>) {
    match n {
        RepeatSpec::Exactly(k) => (k, Some(k)),
        RepeatSpec::AtLeast(k) => (k, None),
        RepeatSpec::AtMost(k) => (0, Some(k)),
        RepeatSpec::Range(r) => (r.lo(), Some(r.hi())),
    }
}

/// A quantifier at `pos` over `inner`, before its first repetition.
pub open spec fn new_loop<'a>(
    kind: QuantKind,
    inner: &'a RegexPart,
    base: usize,
    eagerness: Eagerness,
    min: usize,
    max: Option<usize>,
    pos: usize,
) -> LoopState<'a> {
    LoopState { kind, inner, base, eagerness, min, max, count: 0, start: pos, iter_start: pos }
}

/// The search: match the continuation `k` from `pos`, with the captures
/// `caps` and the trace `tr` so far; it gives up once the trace holds
/// `limit` steps or `fuel` nested decisions are spent. Returns the outcome
/// and the trace.
pub open spec fn run<'a>(
    inp: Seq<char>,
    k: Seq<Work<'a>>,
    pos: usize,
    caps: CapsModel,
    tr: Seq<Step>,
    limit: usize,
    fuel: usize,
) -> (Outcome, Seq<Step>)
    decreases fuel,
{
    if fuel == 0 || tr.len() >= limit {
        (Outcome::Exhausted, tr)
    } else if k.len() == 0 {
        if pos == inp.len() {
            (Outcome::Matched(pos, caps), tr)
        } else {
            (Outcome::Failed(pos), tr)
        }
    } else {
        let f = (fuel - 1) as usize;
        let rest = k.drop_last();
        match k.last() {
            Work::Accept => (Outcome::Matched(pos, caps), tr),
            Work::FinishAlt { chosen, start } => {
                let st = Step::FinishAlternatives(
                    AlternativesEnd::Success { string_span: Span(start, pos), alternative_chosen: chosen },
                );
                run(inp, rest, pos, caps, tr.push(st), limit, f)
            },
            Work::EndGroup { group, name, start } => run(
                inp,
                rest,
                pos,
                record(caps, group, name, Span(start, pos)),
                tr.push(Step::EndGroup { string_pos: pos }),
                limit,
                f,
            ),
            Work::SeqFrom { items, next, base } => if next >= items@.len() {
                run(inp, rest, pos, caps, tr, limit, f)
            } else {
                let k2 = rest.push(
                    Work::SeqFrom { items, next: (next + 1) as usize, base: (base + ncaps(items@[next as int])) as usize },
                ).push(Work::Node { part: &items@[next as int], base });
                run(inp, k2, pos, caps, tr, limit, f)
            },
            Work::Loop(l) => loop_step(inp, rest, l, pos, caps, tr, limit, f),
            Work::Node { part, base } => node_step(inp, rest, part, base, pos, caps, tr, limit, f),
        }
    }
}

/// Match one tree node at `pos`, then the continuation `rest`.
pub open spec fn node_step<'a>(
    inp: Seq<char>,
    rest: Seq<Work<'a>>,
    part: &'a RegexPart,
    base: usize,
    pos: usize,
    caps: CapsModel,
    tr: Seq<Step>,
    limit: usize,
    fuel: usize,
) -> (Outcome, Seq<Step>)
    decreases fuel,
{
    if fuel == 0 {
        (Outcome::Exhausted, tr)
    } else {
        let f = (fuel - 1) as usize;
        let here = pos < inp.len();
        let next = (pos + 1) as usize;
        match part {
            RegexPart::Empty => run(inp, rest, pos, caps, tr, limit, f),
            RegexPart::Literal(c) => if here && inp[pos as int] == *c {
                let st = Step::MatchLiteral { literal: *c, attempt: Attempt::Success { string_span: Span(pos, next) } };
                run(inp, rest, next, caps, tr.push(st), limit, f)
            } else {
                let why = if here { FailureReason::OtherChar } else { FailureReason::EndOfInput };
                let st = Step::MatchLiteral { literal: *c, attempt: Attempt::Failure { string_pos: pos, failure_reason: why } };
                (Outcome::Failed(pos), tr.push(st))
            },
            RegexPart::Wildcard => if here {
                let st = Step::MatchWildcard(Attempt::Success { string_span: Span(pos, next) });
                run(inp, rest, next, caps, tr.push(st), limit, f)
            } else {
                let st = Step::MatchWildcard(Attempt::Failure { string_pos: pos, failure_reason: FailureReason::EndOfInput });
                (Outcome::Failed(pos), tr.push(st))
            },
            RegexPart::Bracketed(b) => if here && class_holds(b.alternatives@, inp[pos as int]) {
                let st = Step::MatchCharClass(Attempt::Success { string_span: Span(pos, next) });
                run(inp, rest, next, caps, tr.push(st), limit, f)
            } else {
                let why = if here { FailureReason::ExcludedChar } else { FailureReason::EndOfInput };
                let st = Step::MatchCharClass(Attempt::Failure { string_pos: pos, failure_reason: why });
                (Outcome::Failed(pos), tr.push(st))
            },
            RegexPart::LineStart => if pos == 0 {
                run(inp, rest, pos, caps, tr, limit, f)
            } else {
                (Outcome::Failed(pos), tr)
            },
            RegexPart::LineEnd => if pos == inp.len() {
                run(inp, rest, pos, caps, tr, limit, f)
            } else {
                (Outcome::Failed(pos), tr)
            },
            RegexPart::Sequence(v) => run(inp, rest.push(Work::SeqFrom { items: v, next: 0, base }), pos, caps, tr, limit, f),
            RegexPart::Alternatives(v) => {
                let tr2 = tr.push(Step::MatchAlternatives { string_pos: pos });
                alts(inp, rest, v, 0, base, pos, caps, tr2, mark(tr2), limit, f)
            },
            RegexPart::ParenGroup { capture, inner } => {
                let (group, name) = match capture {
                    None => (0usize, None::<&String>),
                    Some(Capture::Index) => ((base + 1) as usize, None::<&String>),
                    Some(Capture::Name { name, .. }) => ((base + 1) as usize, Some(name)),
                };
                let b2 = if capture is Some { (base + 1) as usize } else { base };
                let k2 = rest.push(Work::EndGroup { group, name, start: pos }).push(Work::Node { part: &**inner, base: b2 });
                run(inp, k2, pos, caps, tr.push(Step::BeginGroup { string_pos: pos }), limit, f)
            },
            RegexPart::Optional(inner) => {
                let l = new_loop(QuantKind::Optional, &**inner, base, Eagerness::Greedy, 0, Some(1usize), pos);
                loop_step(inp, rest, l, pos, caps, tr.push(open_step(QuantKind::Optional, pos)), limit, f)
            },
            RegexPart::ZeroOrMore { eagerness, inner } => {
                let l = new_loop(QuantKind::Star, &**inner, base, *eagerness, 0, None, pos);
                quantifier(inp, rest, l, pos, caps, tr.push(open_step(QuantKind::Star, pos)), limit, f)
            },
            RegexPart::OneOrMore { eagerness, inner } => {
                let l = new_loop(QuantKind::Plus, &**inner, base, *eagerness, 1, None, pos);
                quantifier(inp, rest, l, pos, caps, tr.push(open_step(QuantKind::Plus, pos)), limit, f)
            },
            RegexPart::Repeat { eagerness, n, inner } => {
                let l = new_loop(QuantKind::Star, &**inner, base, *eagerness, bounds(*n).0, bounds(*n).1, pos);
                quantifier(inp, rest, l, pos, caps, tr.push(open_step(QuantKind::Star, pos)), limit, f)
            },
        }
    }
}

/// Start a quantifier: possessive ones commit, the others make choice
/// points.
pub open spec fn quantifier<'a>(
    inp: Seq<char>,
    rest: Seq<Work<'a>>,
    l: LoopState<'a>,
    pos: usize,
    caps: CapsModel,
    tr: Seq<Step>,
    limit: usize,
    fuel: usize,
) -> (Outcome, Seq<Step>)
    decreases fuel,
{
    if fuel == 0 {
        (Outcome::Exhausted, tr)
    } else if l.eagerness is Possessive {
        possessive(inp, rest, l, pos, caps, tr, limit, (fuel - 1) as usize)
    } else {
        loop_step(inp, rest, l, pos, caps, tr, limit, (fuel - 1) as usize)
    }
}

/// Try branches `i..` of an alternation begun at `pos`, whose opening step
/// is numbered `m`; branch `i` has `base` capturing groups before it.
pub open spec fn alts<'a>(
    inp: Seq<char>,
    rest: Seq<Work<'a>>,
    v: &'a Vec<RegexPart>,
    i: usize,
    base: usize,
    pos: usize,
    caps: CapsModel,
    tr: Seq<Step>,
    m: usize,
    limit: usize,
    fuel: usize,
) -> (Outcome, Seq<Step>)
    decreases fuel,
{
    if fuel == 0 {
        (Outcome::Exhausted, tr)
    } else if i >= v@.len() {
        let st = Step::FinishAlternatives(
            AlternativesEnd::Failure { string_pos: pos, failure_reason: FailureReason::OptionsExhausted },
        );
        (Outcome::Failed(pos), tr.push(st))
    } else {
        let f = (fuel - 1) as usize;
        let k2 = rest.push(Work::FinishAlt { chosen: i, start: pos }).push(Work::Node { part: &v@[i as int], base });
        let (r, t2) = run(inp, k2, pos, caps, tr, limit, f);
        if r is Failed && i + 1 < v@.len() {
            let t3 = t2.push(Step::Backtrack { string_pos: pos, continue_after_step: m });
            alts(inp, rest, v, (i + 1) as usize, (base + ncaps(v@[i as int])) as usize, pos, caps, t3, m, limit, f)
        } else if r is Failed {
            alts(inp, rest, v, (i + 1) as usize, base, pos, caps, t2, m, limit, f)
        } else {
            (r, t2)
        }
    }
}

/// The quantifier `l` after `l.count` repetitions, at `pos`: repeat once
/// more or conclude, in the order its eagerness gives.
pub open spec fn loop_step<'a>(
    inp: Seq<char>,
    rest: Seq<Work<'a>>,
    l: LoopState<'a>,
    pos: usize,
    caps: CapsModel,
    tr: Seq<Step>,
    limit: usize,
    fuel: usize,
) -> (Outcome, Seq<Step>)
    decreases fuel,
{
    if fuel == 0 {
        (Outcome::Exhausted, tr)
    } else {
        let f = (fuel - 1) as usize;
        let more = rest.push(Work::Loop(LoopState { count: (l.count + 1) as usize, iter_start: pos, ..l })).push(
            Work::Node { part: l.inner, base: l.base },
        );
        let can = match l.max {
            None => l.count < usize::MAX,
            Some(m) => l.count < m,
        };
        if l.count > l.min && pos == l.iter_start {
            (Outcome::Failed(pos), tr)
        } else if l.count < l.min {
            let (r, t2) = run(inp, more, pos, caps, tr, limit, f);
            if r is Failed {
                (Outcome::Failed(pos), t2.push(finish_fail(l, pos)))
            } else {
                (r, t2)
            }
        } else if !can {
            let (r, t2) = run(inp, rest, pos, caps, tr.push(finish_ok(l, pos)), limit, f);
            if r is Failed {
                (Outcome::Failed(pos), t2.push(finish_fail(l, pos)))
            } else {
                (r, t2)
            }
        } else if l.eagerness is Lazy {
            let (r1, t1) = run(inp, rest, pos, caps, tr.push(finish_ok(l, pos)), limit, f);
            if r1 is Failed {
                let t3 = t1.push(Step::Backtrack { string_pos: pos, continue_after_step: mark(tr) });
                let (r2, t2) = run(inp, more, pos, caps, t3, limit, f);
                if r2 is Failed {
                    (Outcome::Failed(pos), t2.push(finish_fail(l, pos)))
                } else {
                    (r2, t2)
                }
            } else {
                (r1, t1)
            }
        } else {
            let (r1, t1) = run(inp, more, pos, caps, tr, limit, f);
            if r1 is Failed {
                let t3 = t1.push(Step::Backtrack { string_pos: pos, continue_after_step: mark(tr) }).push(
                    finish_ok(l, pos),
                );
                let (r2, t2) = run(inp, rest, pos, caps, t3, limit, f);
                if r2 is Failed {
                    (Outcome::Failed(pos), t2.push(finish_fail(l, pos)))
                } else {
                    (r2, t2)
                }
            } else {
                (r1, t1)
            }
        }
    }
}

/// A possessive quantifier after `l.count` repetitions, at `pos`: repeat
/// while the inner part matches, then commit to that count.
pub open spec fn possessive<'a>(
    inp: Seq<char>,
    rest: Seq<Work<'a>>,
    l: LoopState<'a>,
    pos: usize,
    caps: CapsModel,
    tr: Seq<Step>,
    limit: usize,
    fuel: usize,
) -> (Outcome, Seq<Step>)
    decreases fuel,
{
    if fuel == 0 {
        (Outcome::Exhausted, tr)
    } else {
        let f = (fuel - 1) as usize;
        let can = match l.max {
            None => l.count < usize::MAX,
            Some(m) => l.count < m,
        };
        let (r, t2) = if can {
            run(inp, seq![Work::Accept, Work::Node { part: l.inner, base: l.base }], pos, caps, tr, limit, f)
        } else {
            (Outcome::Failed(pos), tr)
        };
        match r {
            Outcome::Exhausted => (Outcome::Exhausted, t2),
            Outcome::Matched(reached, c2) => if reached != pos || l.count < l.min {
                possessive(inp, rest, LoopState { count: (l.count + 1) as usize, ..l }, reached, c2, t2, limit, f)
            } else {
                run(inp, rest, pos, caps, t2.push(finish_ok(l, pos)), limit, f)
            },
            Outcome::Failed(_) => if l.count >= l.min {
                run(inp, rest, pos, caps, t2.push(finish_ok(l, pos)), limit, f)
            } else {
                (Outcome::Failed(pos), t2.push(finish_fail(l, pos)))
            },
        }
    }
}

/// Captures recorded along a path.
pub struct Caps {
    pub by_index: Vec<(usize, Span)>,
    pub by_name: Vec<(String, Span)>,
}

pub open spec fn names_view(s: Seq<(String, Span)>) -> Seq<(Seq<char>, Span)> {
    s.map_values(|e: (String, Span)| (e.0@, e.1))
}

impl Caps {
    pub open spec fn view(&self) -> CapsModel {
        CapsModel { by_index: self.by_index@, by_name: names_view(self.by_name@) }
    }
}

/// The exec form of an `Outcome`.
pub enum Found {
    Matched(usize, Caps),
    Failed(usize),
    Exhausted,
}

impl Found {
    pub open spec fn view(&self) -> Outcome {
        match self {
            Found::Matched(p, c) => Outcome::Matched(*p, c.view()),
            Found::Failed(p) => Outcome::Failed(*p),
            Found::Exhausted => Outcome::Exhausted,
        }
    }
}

/// The group numbers that the work item computes stay within `usize`.
pub open spec fn fits(w: Work) -> bool {
    match w {
        Work::Node { part, base } => base + ncaps(*part) <= usize::MAX,
        Work::SeqFrom { items, next, base } => next <= items@.len() && base + ncaps_seq(
            items@.subrange(next as int, items@.len() as int),
        ) <= usize::MAX,
        Work::Loop(l) => l.base + ncaps(*l.inner) <= usize::MAX,
        _ => true,
    }
}

pub open spec fn all_fit(k: Seq<Work>) -> bool {
    forall|i: int| 0 <= i < k.len() ==> fits(#[trigger] k[i])
}

proof fn lemma_ncaps_seq_step(s: Seq<RegexPart>, i: int)
    requires
        0 <= i < s.len(),
    ensures
        ncaps_seq(s.subrange(i, s.len() as int)) == ncaps(s[i]) + ncaps_seq(s.subrange(i + 1, s.len() as int)),
{
    let t = s.subrange(i, s.len() as int);
    assert(t[0] == s[i]);
    assert(t.subrange(1, t.len() as int) =~= s.subrange(i + 1, s.len() as int));
}

/// The number of capturing groups in `p`, unless it exceeds `usize::MAX`.
pub fn count_groups(p: &RegexPart) -> (r: Option<usize>)
    ensures
        r == (if ncaps(*p) <= usize::MAX { Some(ncaps(*p) as usize) } else { None::<usize> }),
    decreases p,
{
    match p {
        RegexPart::Alternatives(v) => count_groups_in(v),
        RegexPart::Sequence(v) => count_groups_in(v),
        RegexPart::ParenGroup { capture, inner } => {
            let own: usize = if capture.is_some() { 1 } else { 0 };
            match count_groups(inner) {
                Some(n) => n.checked_add(own),
                None => None,
            }
        },
        RegexPart::Optional(inner) => count_groups(inner),
        RegexPart::ZeroOrMore { inner, .. } => count_groups(inner),
        RegexPart::OneOrMore { inner, .. } => count_groups(inner),
        RegexPart::Repeat { inner, .. } => count_groups(inner),
        _ => Some(0),
    }
}

/// The number of capturing groups in `v`, unless it exceeds `usize::MAX`.
fn count_groups_in(v: &Vec<RegexPart>) -> (r: Option<usize>)
    ensures
        r == (if ncaps_seq(v@) <= usize::MAX { Some(ncaps_seq(v@) as usize) } else { None::<usize> }),
    decreases v,
{
    let mut acc: usize = 0;
    let mut i: usize = 0;
    assert(v@.subrange(0, v@.len() as int) =~= v@);
    while i < v.len()
        invariant
            i <= v.len(),
            acc + ncaps_seq(v@.subrange(i as int, v@.len() as int)) == ncaps_seq(v@),
        decreases v.len() - i,
    {
        proof {
            lemma_ncaps_seq_step(v@, i as int);
        }
        match count_groups(&v[i]) {
            None => {
                return None;
            },
            Some(n) => match acc.checked_add(n) {
                None => {
                    return None;
                },
                Some(a) => {
                    acc = a;
                },
            },
        }
        i = i + 1;
    }
    assert(v@.subrange(i as int, v@.len() as int) =~= Seq::<RegexPart>::empty());
    Some(acc)
}

proof fn lemma_names_view_push(s: Seq<(String, Span)>, e: (String, Span))
    ensures
        names_view(s.push(e)) == names_view(s).push((e.0@, e.1)),
{
    let l = names_view(s.push(e));
    let r = names_view(s).push((e.0@, e.1));
    assert forall|i: int| 0 <= i < l.len() implies l[i] == r[i] by {
        if i < s.len() {
            assert(s.push(e)[i] == s[i]);
        }
    }
    assert(l =~= r);
}

proof fn lemma_names_view_update(s: Seq<(String, Span)>, j: int, e: (String, Span))
    requires
        0 <= j < s.len(),
    ensures
        names_view(s.update(j, e)) == names_view(s).update(j, (e.0@, e.1)),
{
    assert(names_view(s.update(j, e)) =~= names_view(s).update(j, (e.0@, e.1)));
}

/// A copy of the captures.
fn copy_caps(c: &Caps) -> (r: Caps)
    ensures
        r.view() == c.view(),
{
    let mut by_index: Vec<(usize, Span)> = Vec::new();
    let mut i: usize = 0;
    while i < c.by_index.len()
        invariant
            i <= c.by_index.len(),
            by_index@ == c.by_index@.subrange(0, i as int),
        decreases c.by_index.len() - i,
    {
        by_index.push(c.by_index[i]);
        assert(c.by_index@.subrange(0, i + 1) =~= c.by_index@.subrange(0, i as int).push(c.by_index@[i as int]));
        i = i + 1;
    }
    assert(c.by_index@.subrange(0, i as int) =~= c.by_index@);
    let mut by_name: Vec<(String, Span)> = Vec::new();
    let mut j: usize = 0;
    while j < c.by_name.len()
        invariant
            j <= c.by_name.len(),
            names_view(by_name@) == names_view(c.by_name@.subrange(0, j as int)),
        decreases c.by_name.len() - j,
    {
        let e = (c.by_name[j].0.clone(), c.by_name[j].1);
        proof {
            lemma_names_view_push(by_name@, e);
            lemma_names_view_push(c.by_name@.subrange(0, j as int), c.by_name@[j as int]);
            assert(c.by_name@.subrange(0, j + 1) =~= c.by_name@.subrange(0, j as int).push(c.by_name@[j as int]));
        }
        by_name.push(e);
        j = j + 1;
    }
    assert(c.by_name@.subrange(0, j as int) =~= c.by_name@);
    Caps { by_index, by_name }
}

/// The captures `c` with group `group` (none when 0), named `name`,
/// matching `span`.
fn caps_record(c: &Caps, group: usize, name: Option<&String>, span: Span) -> (r: Caps)
    ensures
        r.view() == record(c.view(), group, name, span),
{
    let mut r = copy_caps(c);
    if group == 0 {
        return r;
    }
    let mut i: usize = 0;
    while i < r.by_index.len() && r.by_index[i].0 != group
        invariant
            i <= r.by_index.len(),
            index_pos(r.by_index@, group, 0) == index_pos(r.by_index@, group, i as int),
        decreases r.by_index.len() - i,
    {
        i = i + 1;
    }
    if i < r.by_index.len() {
        r.by_index.set(i, (group, span));
    } else {
        r.by_index.push((group, span));
    }
    match name {
        None => {},
        Some(n) => {
            let ghost names = names_view(r.by_name@);
            let mut j: usize = 0;
            while j < r.by_name.len() && r.by_name[j].0 != *n
                invariant
                    j <= r.by_name.len(),
                    names == names_view(r.by_name@),
                    name_pos(names, n@, 0) == name_pos(names, n@, j as int),
                decreases r.by_name.len() - j,
            {
                assert(names[j as int].0 == r.by_name@[j as int].0@);
                j = j + 1;
            }
            if j < r.by_name.len() {
                assert(names[j as int].0 == r.by_name@[j as int].0@);
                let e = (n.clone(), span);
                proof {
                    lemma_names_view_update(r.by_name@, j as int, e);
                }
                r.by_name.set(j, e);
            } else {
                let e = (n.clone(), span);
                proof {
                    lemma_names_view_push(r.by_name@, e);
                }
                r.by_name.push(e);
            }
        },
    }
    r
}

/// Some entry of the class holds `c`.
fn class_holds_exec(items: &Vec<BracketedAlternative>, c: char) -> (r: bool)
    ensures
        r == class_holds(items@, c),
{
    let mut i: usize = 0;
    while i < items.len()
        invariant
            i <= items.len(),
            forall|j: int| 0 <= j < i ==> !entry_holds(#[trigger] items@[j], c),
        decreases items.len() - i,
    {
        let hit = match &items[i] {
            BracketedAlternative::Single(x) => *x == c,
            BracketedAlternative::Range(g) => *g.min() <= c && c <= *g.max(),
        };
        if hit {
            assert(entry_holds(items@[i as int], c));
            return true;
        }
        i = i + 1;
    }
    false
}

/// The first `n` entries of `k`.
fn copy_work<'a>(k: &Vec<Work<'a>>, n: usize) -> (r: Vec<Work<'a>>)
    requires
        n <= k.len(),
    ensures
        r@ == k@.subrange(0, n as int),
{
    let mut r: Vec<Work<'a>> = Vec::new();
    let mut i: usize = 0;
    while i < n
        invariant
            i <= n <= k.len(),
            r@ == k@.subrange(0, i as int),
        decreases n - i,
    {
        r.push(k[i]);
        assert(k@.subrange(0, i + 1) =~= k@.subrange(0, i as int).push(k@[i as int]));
        i = i + 1;
    }
    r
}

fn mark_exec(tr: &Vec<Step>) -> (r: usize)
    ensures
        r == mark(tr@),
{
    if tr.len() == 0 {
        0
    } else {
        tr.len() - 1
    }
}

fn finish_exec(kind: QuantKind, e: QuantifierEnd) -> (r: Step)
    ensures
        r == finish_step(kind, e),
{
    match kind {
        QuantKind::Star => Step::FinishStar(e),
        QuantKind::Plus => Step::FinishPlus(e),
        QuantKind::Optional => Step::FinishOptional(e),
    }
}

fn finish_ok_exec(l: &LoopState, pos: usize) -> (r: Step)
    ensures
        r == finish_ok(*l, pos),
{
    finish_exec(l.kind, QuantifierEnd::Success { string_span: Span(l.start, pos), num_repetitions: l.count })
}

fn finish_fail_exec(l: &LoopState, pos: usize) -> (r: Step)
    ensures
        r == finish_fail(*l, pos),
{
    finish_exec(l.kind, QuantifierEnd::Failure { string_pos: pos, failure_reason: FailureReason::OptionsExhausted })
}

fn is_failed(r: &Found) -> (b: bool)
    ensures
        b == (r.view() is Failed),
{
    match r {
        Found::Failed(_) => true,
        _ => false,
    }
}

fn run_exec<'a>(
    inp: &Vec<char>,
    k: &Vec<Work<'a>>,
    pos: usize,
    caps: &Caps,
    tr: &mut Vec<Step>,
    limit: usize,
    fuel: usize,
) -> (r: Found)
    requires
        all_fit(k@),
    ensures
        (r.view(), final(tr)@) == run(inp@, k@, pos, caps.view(), old(tr)@, limit, fuel),
    decreases fuel,
{
    if fuel == 0 || tr.len() >= limit {
        return Found::Exhausted;
    }
    if k.len() == 0 {
        if pos == inp.len() {
            return Found::Matched(pos, copy_caps(caps));
        } else {
            return Found::Failed(pos);
        }
    }
    let f = fuel - 1;
    let mut rest = copy_work(k, k.len() - 1);
    assert(rest@ == k@.drop_last());
    let w = k[k.len() - 1];
    assert(fits(w));
    match w {
        Work::Accept => Found::Matched(pos, copy_caps(caps)),
        Work::FinishAlt { chosen, start } => {
            tr.push(Step::FinishAlternatives(
                AlternativesEnd::Success { string_span: Span(start, pos), alternative_chosen: chosen },
            ));
            run_exec(inp, &rest, pos, caps, tr, limit, f)
        },
        Work::EndGroup { group, name, start } => {
            let c2 = caps_record(caps, group, name, Span(start, pos));
            tr.push(Step::EndGroup { string_pos: pos });
            run_exec(inp, &rest, pos, &c2, tr, limit, f)
        },
        Work::SeqFrom { items, next, base } => {
            if next >= items.len() {
                run_exec(inp, &rest, pos, caps, tr, limit, f)
            } else {
                proof {
                    lemma_ncaps_seq_step(items@, next as int);
                }
                let n = count_groups(&items[next]).unwrap();
                rest.push(Work::SeqFrom { items, next: next + 1, base: base + n });
                rest.push(Work::Node { part: &items[next], base });
                run_exec(inp, &rest, pos, caps, tr, limit, f)
            }
        },
        Work::Loop(l) => loop_exec(inp, &rest, l, pos, caps, tr, limit, f),
        Work::Node { part, base } => node_exec(inp, &rest, part, base, pos, caps, tr, limit, f),
    }
}

fn node_exec<'a>(
    inp: &Vec<char>,
    rest: &Vec<Work<'a>>,
    part: &'a RegexPart,
    base: usize,
    pos: usize,
    caps: &Caps,
    tr: &mut Vec<Step>,
    limit: usize,
    fuel: usize,
) -> (r: Found)
    requires
        all_fit(rest@),
        base + ncaps(*part) <= usize::MAX,
    ensures
        (r.view(), final(tr)@) == node_step(inp@, rest@, part, base, pos, caps.view(), old(tr)@, limit, fuel),
    decreases fuel,
{
    if fuel == 0 {
        return Found::Exhausted;
    }
    let f = fuel - 1;
    let here = pos < inp.len();
    match part {
        RegexPart::Empty => run_exec(inp, rest, pos, caps, tr, limit, f),
        RegexPart::Literal(c) => {
            if here && inp[pos] == *c {
                tr.push(Step::MatchLiteral { literal: *c, attempt: Attempt::Success { string_span: Span(pos, pos + 1) } });
                run_exec(inp, rest, pos + 1, caps, tr, limit, f)
            } else {
                let why = if here { FailureReason::OtherChar } else { FailureReason::EndOfInput };
                tr.push(Step::MatchLiteral { literal: *c, attempt: Attempt::Failure { string_pos: pos, failure_reason: why } });
                Found::Failed(pos)
            }
        },
        RegexPart::Wildcard => {
            if here {
                tr.push(Step::MatchWildcard(Attempt::Success { string_span: Span(pos, pos + 1) }));
                run_exec(inp, rest, pos + 1, caps, tr, limit, f)
            } else {
                tr.push(Step::MatchWildcard(Attempt::Failure { string_pos: pos, failure_reason: FailureReason::EndOfInput }));
                Found::Failed(pos)
            }
        },
        RegexPart::Bracketed(b) => {
            if here && class_holds_exec(&b.alternatives, inp[pos]) {
                tr.push(Step::MatchCharClass(Attempt::Success { string_span: Span(pos, pos + 1) }));
                run_exec(inp, rest, pos + 1, caps, tr, limit, f)
            } else {
                let why = if here { FailureReason::ExcludedChar } else { FailureReason::EndOfInput };
                tr.push(Step::MatchCharClass(Attempt::Failure { string_pos: pos, failure_reason: why }));
                Found::Failed(pos)
            }
        },
        RegexPart::LineStart => {
            if pos == 0 {
                run_exec(inp, rest, pos, caps, tr, limit, f)
            } else {
                Found::Failed(pos)
            }
        },
        RegexPart::LineEnd => {
            if pos == inp.len() {
                run_exec(inp, rest, pos, caps, tr, limit, f)
            } else {
                Found::Failed(pos)
            }
        },
        RegexPart::Sequence(v) => {
            let mut k2 = copy_work(rest, rest.len());
            assert(rest@.subrange(0, rest@.len() as int) =~= rest@);
            assert(v@.subrange(0, v@.len() as int) =~= v@);
            k2.push(Work::SeqFrom { items: v, next: 0, base });
            run_exec(inp, &k2, pos, caps, tr, limit, f)
        },
        RegexPart::Alternatives(v) => {
            tr.push(Step::MatchAlternatives { string_pos: pos });
            let m = mark_exec(tr);
            assert(v@.subrange(0, v@.len() as int) =~= v@);
            alts_exec(inp, rest, v, 0, base, pos, caps, tr, m, limit, f)
        },
        RegexPart::ParenGroup { capture, inner } => {
            let (group, name): (usize, Option<&'a String>) = match capture {
                None => (0, None),
                Some(Capture::Index) => (base + 1, None),
                Some(Capture::Name { name, .. }) => (base + 1, Some(name)),
            };
            let b2 = if capture.is_some() { base + 1 } else { base };
            let mut k2 = copy_work(rest, rest.len());
            assert(rest@.subrange(0, rest@.len() as int) =~= rest@);
            k2.push(Work::EndGroup { group, name, start: pos });
            k2.push(Work::Node { part: &**inner, base: b2 });
            tr.push(Step::BeginGroup { string_pos: pos });
            run_exec(inp, &k2, pos, caps, tr, limit, f)
        },
        RegexPart::Optional(inner) => {
            let l = LoopState {
                kind: QuantKind::Optional,
                inner: &**inner,
                base,
                eagerness: Eagerness::Greedy,
                min: 0,
                max: Some(1),
                count: 0,
                start: pos,
                iter_start: pos,
            };
            tr.push(Step::MatchOptional { string_pos: pos });
            loop_exec(inp, rest, l, pos, caps, tr, limit, f)
        },
        RegexPart::ZeroOrMore { eagerness, inner } => {
            let l = LoopState {
                kind: QuantKind::Star,
                inner: &**inner,
                base,
                eagerness: *eagerness,
                min: 0,
                max: None,
                count: 0,
                start: pos,
                iter_start: pos,
            };
            tr.push(Step::MatchStar { string_pos: pos });
            quantifier_exec(inp, rest, l, pos, caps, tr, limit, f)
        },
        RegexPart::OneOrMore { eagerness, inner } => {
            let l = LoopState {
                kind: QuantKind::Plus,
                inner: &**inner,
                base,
                eagerness: *eagerness,
                min: 1,
                max: None,
                count: 0,
                start: pos,
                iter_start: pos,
            };
            tr.push(Step::MatchPlus { string_pos: pos });
            quantifier_exec(inp, rest, l, pos, caps, tr, limit, f)
        },
        RegexPart::Repeat { eagerness, n, inner } => {
            let (min, max) = match n {
                RepeatSpec::Exactly(k) => (*k, Some(*k)),
                RepeatSpec::AtLeast(k) => (*k, None),
                RepeatSpec::AtMost(k) => (0, Some(*k)),
                RepeatSpec::Range(g) => (*g.min(), Some(*g.max())),
            };
            let l = LoopState {
                kind: QuantKind::Star,
                inner: &**inner,
                base,
                eagerness: *eagerness,
                min,
                max,
                count: 0,
                start: pos,
                iter_start: pos,
            };
            tr.push(Step::MatchStar { string_pos: pos });
            quantifier_exec(inp, rest, l, pos, caps, tr, limit, f)
        },
    }
}

fn quantifier_exec<'a>(
    inp: &Vec<char>,
    rest: &Vec<Work<'a>>,
    l: LoopState<'a>,
    pos: usize,
    caps: &Caps,
    tr: &mut Vec<Step>,
    limit: usize,
    fuel: usize,
) -> (r: Found)
    requires
        all_fit(rest@),
        l.base + ncaps(*l.inner) <= usize::MAX,
    ensures
        (r.view(), final(tr)@) == quantifier(inp@, rest@, l, pos, caps.view(), old(tr)@, limit, fuel),
    decreases fuel,
{
    if fuel == 0 {
        return Found::Exhausted;
    }
    match l.eagerness {
        Eagerness::Possessive => possessive_exec(inp, rest, l, pos, caps, tr, limit, fuel - 1),
        _ => loop_exec(inp, rest, l, pos, caps, tr, limit, fuel - 1),
    }
}

fn alts_exec<'a>(
    inp: &Vec<char>,
    rest: &Vec<Work<'a>>,
    v: &'a Vec<RegexPart>,
    i: usize,
    base: usize,
    pos: usize,
    caps: &Caps,
    tr: &mut Vec<Step>,
    m: usize,
    limit: usize,
    fuel: usize,
) -> (r: Found)
    requires
        all_fit(rest@),
        i <= v.len(),
        base + ncaps_seq(v@.subrange(i as int, v@.len() as int)) <= usize::MAX,
    ensures
        (r.view(), final(tr)@) == alts(inp@, rest@, v, i, base, pos, caps.view(), old(tr)@, m, limit, fuel),
    decreases fuel,
{
    if fuel == 0 {
        return Found::Exhausted;
    }
    if i >= v.len() {
        tr.push(Step::FinishAlternatives(
            AlternativesEnd::Failure { string_pos: pos, failure_reason: FailureReason::OptionsExhausted },
        ));
        return Found::Failed(pos);
    }
    let f = fuel - 1;
    proof {
        lemma_ncaps_seq_step(v@, i as int);
    }
    let mut k2 = copy_work(rest, rest.len());
    assert(rest@.subrange(0, rest@.len() as int) =~= rest@);
    k2.push(Work::FinishAlt { chosen: i, start: pos });
    k2.push(Work::Node { part: &v[i], base });
    let r = run_exec(inp, &k2, pos, caps, tr, limit, f);
    if is_failed(&r) && i + 1 < v.len() {
        tr.push(Step::Backtrack { string_pos: pos, continue_after_step: m });
        let n = count_groups(&v[i]).unwrap();
        alts_exec(inp, rest, v, i + 1, base + n, pos, caps, tr, m, limit, f)
    } else if is_failed(&r) {
        alts_exec(inp, rest, v, i + 1, base, pos, caps, tr, m, limit, f)
    } else {
        r
    }
}

fn loop_exec<'a>(
    inp: &Vec<char>,
    rest: &Vec<Work<'a>>,
    l: LoopState<'a>,
    pos: usize,
    caps: &Caps,
    tr: &mut Vec<Step>,
    limit: usize,
    fuel: usize,
) -> (r: Found)
    requires
        all_fit(rest@),
        l.base + ncaps(*l.inner) <= usize::MAX,
    ensures
        (r.view(), final(tr)@) == loop_step(inp@, rest@, l, pos, caps.view(), old(tr)@, limit, fuel),
    decreases fuel,
{
    if fuel == 0 {
        return Found::Exhausted;
    }
    let f = fuel - 1;
    let can = match l.max {
        None => l.count < usize::MAX,
        Some(m) => l.count < m,
    };
    if l.count > l.min && pos == l.iter_start {
        return Found::Failed(pos);
    }
    let mut more = copy_work(rest, rest.len());
    assert(rest@.subrange(0, rest@.len() as int) =~= rest@);
    if l.count < l.min || can {
        more.push(Work::Loop(LoopState { count: l.count + 1, iter_start: pos, ..l }));
        more.push(Work::Node { part: l.inner, base: l.base });
    }
    if l.count < l.min {
        let r = run_exec(inp, &more, pos, caps, tr, limit, f);
        if is_failed(&r) {
            tr.push(finish_fail_exec(&l, pos));
            Found::Failed(pos)
        } else {
            r
        }
    } else if !can {
        tr.push(finish_ok_exec(&l, pos));
        let r = run_exec(inp, rest, pos, caps, tr, limit, f);
        if is_failed(&r) {
            tr.push(finish_fail_exec(&l, pos));
            Found::Failed(pos)
        } else {
            r
        }
    } else if l.eagerness == Eagerness::Lazy {
        let m = mark_exec(tr);
        tr.push(finish_ok_exec(&l, pos));
        let r1 = run_exec(inp, rest, pos, caps, tr, limit, f);
        if is_failed(&r1) {
            tr.push(Step::Backtrack { string_pos: pos, continue_after_step: m });
            let r2 = run_exec(inp, &more, pos, caps, tr, limit, f);
            if is_failed(&r2) {
                tr.push(finish_fail_exec(&l, pos));
                Found::Failed(pos)
            } else {
                r2
            }
        } else {
            r1
        }
    } else {
        let m = mark_exec(tr);
        let r1 = run_exec(inp, &more, pos, caps, tr, limit, f);
        if is_failed(&r1) {
            tr.push(Step::Backtrack { string_pos: pos, continue_after_step: m });
            tr.push(finish_ok_exec(&l, pos));
            let r2 = run_exec(inp, rest, pos, caps, tr, limit, f);
            if is_failed(&r2) {
                tr.push(finish_fail_exec(&l, pos));
                Found::Failed(pos)
            } else {
                r2
            }
        } else {
            r1
        }
    }
}

fn possessive_exec<'a>(
    inp: &Vec<char>,
    rest: &Vec<Work<'a>>,
    l: LoopState<'a>,
    pos: usize,
    caps: &Caps,
    tr: &mut Vec<Step>,
    limit: usize,
    fuel: usize,
) -> (r: Found)
    requires
        all_fit(rest@),
        l.base + ncaps(*l.inner) <= usize::MAX,
    ensures
        (r.view(), final(tr)@) == possessive(inp@, rest@, l, pos, caps.view(), old(tr)@, limit, fuel),
    decreases fuel,
{
    if fuel == 0 {
        return Found::Exhausted;
    }
    let f = fuel - 1;
    let can = match l.max {
        None => l.count < usize::MAX,
        Some(m) => l.count < m,
    };
    let r = if can {
        let mut sub: Vec<Work<'a>> = Vec::new();
        sub.push(Work::Accept);
        sub.push(Work::Node { part: l.inner, base: l.base });
        assert(sub@ =~= seq![Work::Accept, Work::Node { part: l.inner, base: l.base }]);
        run_exec(inp, &sub, pos, caps, tr, limit, f)
    } else {
        Found::Failed(pos)
    };
    match r {
        Found::Exhausted => Found::Exhausted,
        Found::Matched(reached, c2) => {
            if reached != pos || l.count < l.min {
                possessive_exec(inp, rest, LoopState { count: l.count + 1, ..l }, reached, &c2, tr, limit, f)
            } else {
                tr.push(finish_ok_exec(&l, pos));
                run_exec(inp, rest, pos, caps, tr, limit, f)
            }
        },
        Found::Failed(_) => {
            if l.count >= l.min {
                tr.push(finish_ok_exec(&l, pos));
                run_exec(inp, rest, pos, caps, tr, limit, f)
            } else {
                tr.push(finish_fail_exec(&l, pos));
                Found::Failed(pos)
            }
        },
    }
}

/// The captures of a successful match: the whole match, and the last span
/// of each capturing group by number (from 1, in the order of the groups'
/// opening parentheses) and, for named groups, by name.
pub struct CaptureTable {
    pub whole: Span,
    pub by_index: Vec<(usize, Span)>,
    pub by_name: Vec<(String, Span)>,
}

/// The model of a `CaptureTable`.
pub struct TableModel {
    pub whole: Span,
    pub by_index: Seq<(usize, Span)>,
    pub by_name: Seq<(Seq<char>, Span)>,
}

/// The result of matching: the verdict, the captures (present exactly when
/// it matched), and the trace, which ends with `Step::End`.
pub struct Matching {
    pub matched: bool,
    pub captures: Option<CaptureTable>,
    pub steps: Vec<Step>,
}

/// The model of a `Matching`.
pub struct MatchingModel {
    pub matched: bool,
    pub captures: Option<TableModel>,
    pub steps: Seq<Step>,
}

impl CaptureTable {
    pub open spec fn view(&self) -> TableModel {
        TableModel { whole: self.whole, by_index: self.by_index@, by_name: names_view(self.by_name@) }
    }
}

impl Matching {
    pub open spec fn view(&self) -> MatchingModel {
        MatchingModel {
            matched: self.matched,
            captures: match self.captures {
                Some(t) => Some(t.view()),
                None => None,
            },
            steps: self.steps@,
        }
    }
}

/// Matching gave up: the trace reached its step limit, or the search its
/// depth limit.
#[derive(Debug, Copy, Clone, PartialEq, Eq, Structural)]
pub enum ExecError {
    Exhausted,
}

pub open spec fn no_caps() -> CapsModel {
    CapsModel { by_index: Seq::empty(), by_name: Seq::empty() }
}

/// The model of matching `tree` against the whole of `inp`, with at most
/// `limit` steps and `limit` nested decisions; `None` when that is not
/// enough.
pub open spec fn execute_model(tree: &RegexPart, inp: Seq<char>, limit: usize) -> Option<MatchingModel> {
    if ncaps(*tree) > usize::MAX {
        None
    } else {
        let (r, tr) = run(inp, seq![Work::Node { part: tree, base: 0 }], 0, no_caps(), Seq::empty(), limit, limit);
        match r {
            Outcome::Exhausted => None,
            Outcome::Matched(p, c) => Some(
                MatchingModel {
                    matched: true,
                    captures: Some(TableModel { whole: Span(0, p), by_index: c.by_index, by_name: c.by_name }),
                    steps: tr.push(Step::End { string_pos: p, success: true }),
                },
            ),
            Outcome::Failed(p) => Some(
                MatchingModel {
                    matched: false,
                    captures: None,
                    steps: tr.push(Step::End { string_pos: p, success: false }),
                },
            ),
        }
    }
}

pub open spec fn execute_outcome(r: Result<Matching, ExecError>) -> Option<MatchingModel> {
    match r {
        Ok(m) => Some(m.view()),
        Err(_) => None,
    }
}

/// Matches `tree` against the whole of `input`, recording every step;
/// gives up with `ExecError::Exhausted` once the trace holds `limit` steps
/// or the search nests `limit` decisions deep.
pub fn execute(tree: &RegexPart, input: &str, limit: usize) -> (r: Result<Matching, ExecError>)
    ensures
        execute_outcome(r) == execute_model(tree, input@, limit),
        r matches Ok(m) ==> (m.captures is Some <==> m.matched),
        r matches Ok(m) ==> m.steps@.len() > 0 && m.steps@.last() == (Step::End {
            string_pos: m.steps@.last()->End_string_pos,
            success: m.matched,
        }),
{
    if count_groups(tree).is_none() {
        return Err(ExecError::Exhausted);
    }
    let inp = crate::text::chars_of(input);
    let mut k: Vec<Work> = Vec::new();
    k.push(Work::Node { part: tree, base: 0 });
    assert(k@ =~= seq![Work::Node { part: tree, base: 0 }]);
    let caps = Caps { by_index: Vec::new(), by_name: Vec::new() };
    assert(caps.view().by_name =~= Seq::<(Seq<char>, Span)>::empty());
    let mut steps: Vec<Step> = Vec::new();
    match run_exec(&inp, &k, 0, &caps, &mut steps, limit, limit) {
        Found::Exhausted => Err(ExecError::Exhausted),
        Found::Matched(p, c) => {
            steps.push(Step::End { string_pos: p, success: true });
            let table = CaptureTable { whole: Span(0, p), by_index: c.by_index, by_name: c.by_name };
            Ok(Matching { matched: true, captures: Some(table), steps })
        },
        Found::Failed(p) => {
            steps.push(Step::End { string_pos: p, success: false });
            Ok(Matching { matched: false, captures: None, steps })
        },
    }
}

/// Matching is a function of the tree, the input and the limit alone: two
/// outcomes of matching the same tree against the same input are equal in
/// verdict, captures and trace.
pub proof fn execute_is_deterministic(
    tree: &RegexPart,
    input: Seq<char>,
    limit: usize,
    r1: Result<Matching, ExecError>,
    r2: Result<Matching, ExecError>,
)
    requires
        execute_outcome(r1) == execute_model(tree, input, limit),
        execute_outcome(r2) == execute_model(tree, input, limit),
    ensures
        execute_outcome(r1) == execute_outcome(r2),
{
}

/// `t` starts with `tr`.
pub open spec fn extends(t: Seq<Step>, tr: Seq<Step>) -> bool {
    tr.len() <= t.len() && forall|i: int| 0 <= i < tr.len() ==> #[trigger] t[i] == tr[i]
}

/// Every `Backtrack` step of `t` from index `from` on resumes at `pos` or
/// later.
pub open spec fn resumes_from(t: Seq<Step>, from: int, pos: usize) -> bool {
    forall|i: int|
        from <= i < t.len() ==> (#[trigger] t[i] matches Step::Backtrack { string_pos, .. } ==> string_pos >= pos)
}

/// What a search from `pos` with trace `tr` leaves: `tr` extended, every
/// new `Backtrack` resuming at `pos` or later, and a match, if any, ending
/// at `pos` or later.
pub open spec fn forward(tr: Seq<Step>, pos: usize, out: (Outcome, Seq<Step>)) -> bool {
    &&& extends(out.1, tr)
    &&& resumes_from(out.1, tr.len() as int, pos)
    &&& (out.0 matches Outcome::Matched(p, _) ==> p >= pos)
}

proof fn lemma_chain(tr: Seq<Step>, mid: Seq<Step>, pos: usize, pos2: usize, out: (Outcome, Seq<Step>))
    requires
        extends(mid, tr),
        resumes_from(mid, tr.len() as int, pos),
        pos <= pos2,
        forward(mid, pos2, out),
    ensures
        forward(tr, pos, out),
{
    assert forall|i: int| 0 <= i < tr.len() implies #[trigger] out.1[i] == tr[i] by {
        assert(out.1[i] == mid[i]);
    }
    assert forall|i: int| tr.len() <= i < out.1.len() implies (#[trigger] out.1[i] matches Step::Backtrack {
        string_pos,
        ..
    } ==> string_pos >= pos) by {
        if i < mid.len() {
            assert(out.1[i] == mid[i]);
        }
    }
}

proof fn lemma_push(tr: Seq<Step>, st: Step, pos: usize)
    requires
        st matches Step::Backtrack { string_pos, .. } ==> string_pos >= pos,
    ensures
        extends(tr.push(st), tr),
        resumes_from(tr.push(st), tr.len() as int, pos),
{
    assert forall|i: int| 0 <= i < tr.len() implies #[trigger] tr.push(st)[i] == tr[i] by {}
    assert forall|i: int| tr.len() <= i < tr.push(st).len() implies (#[trigger] tr.push(st)[i] matches Step::Backtrack {
        string_pos,
        ..
    } ==> string_pos >= pos) by {
        assert(tr.push(st)[i] == st);
    }
}

proof fn lemma_stay(tr: Seq<Step>, pos: usize)
    ensures
        extends(tr, tr),
        resumes_from(tr, tr.len() as int, pos),
{
}

/// A search never resumes before the position it started from.
pub proof fn run_goes_forward<'a>(
    inp: Seq<char>,
    k: Seq<Work<'a>>,
    pos: usize,
    caps: CapsModel,
    tr: Seq<Step>,
    limit: usize,
    fuel: usize,
)
    requires
        inp.len() <= usize::MAX,
    ensures
        forward(tr, pos, run(inp, k, pos, caps, tr, limit, fuel)),
    decreases fuel,
{
    let out = run(inp, k, pos, caps, tr, limit, fuel);
    lemma_stay(tr, pos);
    if fuel == 0 || tr.len() >= limit || k.len() == 0 {
    } else {
        let f = (fuel - 1) as usize;
        let rest = k.drop_last();
        match k.last() {
            Work::Accept => {},
            Work::FinishAlt { chosen, start } => {
                let st = Step::FinishAlternatives(
                    AlternativesEnd::Success { string_span: Span(start, pos), alternative_chosen: chosen },
                );
                lemma_push(tr, st, pos);
                run_goes_forward(inp, rest, pos, caps, tr.push(st), limit, f);
                lemma_chain(tr, tr.push(st), pos, pos, out);
            },
            Work::EndGroup { group, name, start } => {
                let st = Step::EndGroup { string_pos: pos };
                lemma_push(tr, st, pos);
                run_goes_forward(inp, rest, pos, record(caps, group, name, Span(start, pos)), tr.push(st), limit, f);
                lemma_chain(tr, tr.push(st), pos, pos, out);
            },
            Work::SeqFrom { items, next, base } => if next >= items@.len() {
                run_goes_forward(inp, rest, pos, caps, tr, limit, f);
            } else {
                let k2 = rest.push(
                    Work::SeqFrom { items, next: (next + 1) as usize, base: (base + ncaps(items@[next as int])) as usize },
                ).push(Work::Node { part: &items@[next as int], base });
                run_goes_forward(inp, k2, pos, caps, tr, limit, f);
            },
            Work::Loop(l) => {
                loop_goes_forward(inp, rest, l, pos, caps, tr, limit, f);
            },
            Work::Node { part, base } => {
                node_goes_forward(inp, rest, part, base, pos, caps, tr, limit, f);
            },
        }
    }
}

proof fn node_goes_forward<'a>(
    inp: Seq<char>,
    rest: Seq<Work<'a>>,
    part: &'a RegexPart,
    base: usize,
    pos: usize,
    caps: CapsModel,
    tr: Seq<Step>,
    limit: usize,
    fuel: usize,
)
    requires
        inp.len() <= usize::MAX,
    ensures
        forward(tr, pos, node_step(inp, rest, part, base, pos, caps, tr, limit, fuel)),
    decreases fuel,
{
    let out = node_step(inp, rest, part, base, pos, caps, tr, limit, fuel);
    lemma_stay(tr, pos);
    if fuel > 0 {
        let f = (fuel - 1) as usize;
        let here = pos < inp.len();
        let next = (pos + 1) as usize;
        match part {
            RegexPart::Empty => {
                run_goes_forward(inp, rest, pos, caps, tr, limit, f);
            },
            RegexPart::Literal(c) => if here && inp[pos as int] == *c {
                let st = Step::MatchLiteral { literal: *c, attempt: Attempt::Success { string_span: Span(pos, next) } };
                lemma_push(tr, st, pos);
                run_goes_forward(inp, rest, next, caps, tr.push(st), limit, f);
                lemma_chain(tr, tr.push(st), pos, next, out);
            } else {
                let why = if here { FailureReason::OtherChar } else { FailureReason::EndOfInput };
                let st = Step::MatchLiteral { literal: *c, attempt: Attempt::Failure { string_pos: pos, failure_reason: why } };
                lemma_push(tr, st, pos);
            },
            RegexPart::Wildcard => if here {
                let st = Step::MatchWildcard(Attempt::Success { string_span: Span(pos, next) });
                lemma_push(tr, st, pos);
                run_goes_forward(inp, rest, next, caps, tr.push(st), limit, f);
                lemma_chain(tr, tr.push(st), pos, next, out);
            } else {
                let st = Step::MatchWildcard(Attempt::Failure { string_pos: pos, failure_reason: FailureReason::EndOfInput });
                lemma_push(tr, st, pos);
            },
            RegexPart::Bracketed(b) => if here && class_holds(b.alternatives@, inp[pos as int]) {
                let st = Step::MatchCharClass(Attempt::Success { string_span: Span(pos, next) });
                lemma_push(tr, st, pos);
                run_goes_forward(inp, rest, next, caps, tr.push(st), limit, f);
                lemma_chain(tr, tr.push(st), pos, next, out);
            } else {
                let why = if here { FailureReason::ExcludedChar } else { FailureReason::EndOfInput };
                let st = Step::MatchCharClass(Attempt::Failure { string_pos: pos, failure_reason: why });
                lemma_push(tr, st, pos);
            },
            RegexPart::LineStart => {
                run_goes_forward(inp, rest, pos, caps, tr, limit, f);
            },
            RegexPart::LineEnd => {
                run_goes_forward(inp, rest, pos, caps, tr, limit, f);
            },
            RegexPart::Sequence(v) => {
                run_goes_forward(inp, rest.push(Work::SeqFrom { items: v, next: 0, base }), pos, caps, tr, limit, f);
            },
            RegexPart::Alternatives(v) => {
                let st = Step::MatchAlternatives { string_pos: pos };
                let tr2 = tr.push(st);
                lemma_push(tr, st, pos);
                alts_goes_forward(inp, rest, v, 0, base, pos, caps, tr2, mark(tr2), limit, f);
                lemma_chain(tr, tr2, pos, pos, out);
            },
            RegexPart::ParenGroup { capture, inner } => {
                let (group, name) = match capture {
                    None => (0usize, None::<&String>),
                    Some(Capture::Index) => ((base + 1) as usize, None::<&String>),
                    Some(Capture::Name { name, .. }) => ((base + 1) as usize, Some(name)),
                };
                let b2 = if capture is Some { (base + 1) as usize } else { base };
                let k2 = rest.push(Work::EndGroup { group, name, start: pos }).push(Work::Node { part: &**inner, base: b2 });
                let st = Step::BeginGroup { string_pos: pos };
                lemma_push(tr, st, pos);
                run_goes_forward(inp, k2, pos, caps, tr.push(st), limit, f);
                lemma_chain(tr, tr.push(st), pos, pos, out);
            },
            RegexPart::Optional(inner) => {
                let l = new_loop(QuantKind::Optional, &**inner, base, Eagerness::Greedy, 0, Some(1usize), pos);
                let st = open_step(QuantKind::Optional, pos);
                lemma_push(tr, st, pos);
                loop_goes_forward(inp, rest, l, pos, caps, tr.push(st), limit, f);
                lemma_chain(tr, tr.push(st), pos, pos, out);
            },
            RegexPart::ZeroOrMore { eagerness, inner } => {
                let l = new_loop(QuantKind::Star, &**inner, base, *eagerness, 0, None, pos);
                let st = open_step(QuantKind::Star, pos);
                lemma_push(tr, st, pos);
                quantifier_goes_forward(inp, rest, l, pos, caps, tr.push(st), limit, f);
                lemma_chain(tr, tr.push(st), pos, pos, out);
            },
            RegexPart::OneOrMore { eagerness, inner } => {
                let l = new_loop(QuantKind::Plus, &**inner, base, *eagerness, 1, None, pos);
                let st = open_step(QuantKind::Plus, pos);
                lemma_push(tr, st, pos);
                quantifier_goes_forward(inp, rest, l, pos, caps, tr.push(st), limit, f);
                lemma_chain(tr, tr.push(st), pos, pos, out);
            },
            RegexPart::Repeat { eagerness, n, inner } => {
                let l = new_loop(QuantKind::Star, &**inner, base, *eagerness, bounds(*n).0, bounds(*n).1, pos);
                let st = open_step(QuantKind::Star, pos);
                lemma_push(tr, st, pos);
                quantifier_goes_forward(inp, rest, l, pos, caps, tr.push(st), limit, f);
                lemma_chain(tr, tr.push(st), pos, pos, out);
            },
        }
    }
}

proof fn quantifier_goes_forward<'a>(
    inp: Seq<char>,
    rest: Seq<Work<'a>>,
    l: LoopState<'a>,
    pos: usize,
    caps: CapsModel,
    tr: Seq<Step>,
    limit: usize,
    fuel: usize,
)
    requires
        inp.len() <= usize::MAX,
    ensures
        forward(tr, pos, quantifier(inp, rest, l, pos, caps, tr, limit, fuel)),
    decreases fuel,
{
    lemma_stay(tr, pos);
    if fuel > 0 {
        if l.eagerness is Possessive {
            possessive_goes_forward(inp, rest, l, pos, caps, tr, limit, (fuel - 1) as usize);
        } else {
            loop_goes_forward(inp, rest, l, pos, caps, tr, limit, (fuel - 1) as usize);
        }
    }
}

proof fn alts_goes_forward<'a>(
    inp: Seq<char>,
    rest: Seq<Work<'a>>,
    v: &'a Vec<RegexPart>,
    i: usize,
    base: usize,
    pos: usize,
    caps: CapsModel,
    tr: Seq<Step>,
    m: usize,
    limit: usize,
    fuel: usize,
)
    requires
        inp.len() <= usize::MAX,
    ensures
        forward(tr, pos, alts(inp, rest, v, i, base, pos, caps, tr, m, limit, fuel)),
    decreases fuel,
{
    let out = alts(inp, rest, v, i, base, pos, caps, tr, m, limit, fuel);
    lemma_stay(tr, pos);
    if fuel == 0 {
    } else if i >= v@.len() {
        let st = Step::FinishAlternatives(
            AlternativesEnd::Failure { string_pos: pos, failure_reason: FailureReason::OptionsExhausted },
        );
        lemma_push(tr, st, pos);
    } else {
        let f = (fuel - 1) as usize;
        let k2 = rest.push(Work::FinishAlt { chosen: i, start: pos }).push(Work::Node { part: &v@[i as int], base });
        let (r, t2) = run(inp, k2, pos, caps, tr, limit, f);
        run_goes_forward(inp, k2, pos, caps, tr, limit, f);
        if r is Failed && i + 1 < v@.len() {
            let st = Step::Backtrack { string_pos: pos, continue_after_step: m };
            let t3 = t2.push(st);
            lemma_push(t2, st, pos);
            lemma_chain(tr, t2, pos, pos, (r, t3));
            alts_goes_forward(inp, rest, v, (i + 1) as usize, (base + ncaps(v@[i as int])) as usize, pos, caps, t3, m, limit, f);
            lemma_chain(tr, t3, pos, pos, out);
        } else if r is Failed {
            alts_goes_forward(inp, rest, v, (i + 1) as usize, base, pos, caps, t2, m, limit, f);
            lemma_chain(tr, t2, pos, pos, out);
        }
    }
}

proof fn loop_goes_forward<'a>(
    inp: Seq<char>,
    rest: Seq<Work<'a>>,
    l: LoopState<'a>,
    pos: usize,
    caps: CapsModel,
    tr: Seq<Step>,
    limit: usize,
    fuel: usize,
)
    requires
        inp.len() <= usize::MAX,
    ensures
        forward(tr, pos, loop_step(inp, rest, l, pos, caps, tr, limit, fuel)),
    decreases fuel,
{
    let out = loop_step(inp, rest, l, pos, caps, tr, limit, fuel);
    lemma_stay(tr, pos);
    if fuel > 0 {
        let f = (fuel - 1) as usize;
        let more = rest.push(Work::Loop(LoopState { count: (l.count + 1) as usize, iter_start: pos, ..l })).push(
            Work::Node { part: l.inner, base: l.base },
        );
        let can = match l.max {
            None => l.count < usize::MAX,
            Some(m) => l.count < m,
        };
        let ok = finish_ok(l, pos);
        let fail = finish_fail(l, pos);
        let bt = Step::Backtrack { string_pos: pos, continue_after_step: mark(tr) };
        if l.count > l.min && pos == l.iter_start {
        } else if l.count < l.min {
            let (r, t2) = run(inp, more, pos, caps, tr, limit, f);
            run_goes_forward(inp, more, pos, caps, tr, limit, f);
            lemma_push(t2, fail, pos);
            lemma_chain(tr, t2, pos, pos, (Outcome::Failed(pos), t2.push(fail)));
        } else if !can {
            lemma_push(tr, ok, pos);
            let (r, t2) = run(inp, rest, pos, caps, tr.push(ok), limit, f);
            run_goes_forward(inp, rest, pos, caps, tr.push(ok), limit, f);
            lemma_chain(tr, tr.push(ok), pos, pos, (r, t2));
            lemma_push(t2, fail, pos);
            lemma_chain(tr, t2, pos, pos, (Outcome::Failed(pos), t2.push(fail)));
        } else if l.eagerness is Lazy {
            lemma_push(tr, ok, pos);
            let (r1, t1) = run(inp, rest, pos, caps, tr.push(ok), limit, f);
            run_goes_forward(inp, rest, pos, caps, tr.push(ok), limit, f);
            lemma_chain(tr, tr.push(ok), pos, pos, (r1, t1));
            let t3 = t1.push(bt);
            lemma_push(t1, bt, pos);
            lemma_chain(tr, t1, pos, pos, (r1, t3));
            let (r2, t2) = run(inp, more, pos, caps, t3, limit, f);
            run_goes_forward(inp, more, pos, caps, t3, limit, f);
            lemma_chain(tr, t3, pos, pos, (r2, t2));
            lemma_push(t2, fail, pos);
            lemma_chain(tr, t2, pos, pos, (Outcome::Failed(pos), t2.push(fail)));
        } else {
            let (r1, t1) = run(inp, more, pos, caps, tr, limit, f);
            run_goes_forward(inp, more, pos, caps, tr, limit, f);
            let t3 = t1.push(bt).push(ok);
            lemma_push(t1, bt, pos);
            lemma_push(t1.push(bt), ok, pos);
            lemma_chain(t1, t1.push(bt), pos, pos, (r1, t3));
            lemma_chain(tr, t1, pos, pos, (r1, t3));
            let (r2, t2) = run(inp, rest, pos, caps, t3, limit, f);
            run_goes_forward(inp, rest, pos, caps, t3, limit, f);
            lemma_chain(tr, t3, pos, pos, (r2, t2));
            lemma_push(t2, fail, pos);
            lemma_chain(tr, t2, pos, pos, (Outcome::Failed(pos), t2.push(fail)));
        }
    }
}

proof fn possessive_goes_forward<'a>(
    inp: Seq<char>,
    rest: Seq<Work<'a>>,
    l: LoopState<'a>,
    pos: usize,
    caps: CapsModel,
    tr: Seq<Step>,
    limit: usize,
    fuel: usize,
)
    requires
        inp.len() <= usize::MAX,
    ensures
        forward(tr, pos, possessive(inp, rest, l, pos, caps, tr, limit, fuel)),
    decreases fuel,
{
    let out = possessive(inp, rest, l, pos, caps, tr, limit, fuel);
    lemma_stay(tr, pos);
    if fuel > 0 {
        let f = (fuel - 1) as usize;
        let can = match l.max {
            None => l.count < usize::MAX,
            Some(m) => l.count < m,
        };
        let sub = seq![Work::Accept, Work::Node { part: l.inner, base: l.base }];
        let (r, t2) = if can {
            run(inp, sub, pos, caps, tr, limit, f)
        } else {
            (Outcome::Failed(pos), tr)
        };
        if can {
            run_goes_forward(inp, sub, pos, caps, tr, limit, f);
        }
        let ok = finish_ok(l, pos);
        let fail = finish_fail(l, pos);
        match r {
            Outcome::Exhausted => {},
            Outcome::Matched(reached, c2) => {
                if reached != pos || l.count < l.min {
                    possessive_goes_forward(inp, rest, LoopState { count: (l.count + 1) as usize, ..l }, reached, c2, t2, limit, f);
                    lemma_chain(tr, t2, pos, reached, out);
                } else {
                    lemma_push(t2, ok, pos);
                    run_goes_forward(inp, rest, pos, caps, t2.push(ok), limit, f);
                    lemma_chain(t2, t2.push(ok), pos, pos, out);
                    lemma_chain(tr, t2, pos, pos, out);
                }
            },
            Outcome::Failed(_) => {
                if l.count >= l.min {
                    lemma_push(t2, ok, pos);
                    run_goes_forward(inp, rest, pos, caps, t2.push(ok), limit, f);
                    lemma_chain(t2, t2.push(ok), pos, pos, out);
                    lemma_chain(tr, t2, pos, pos, out);
                } else {
                    lemma_push(t2, fail, pos);
                    lemma_chain(tr, t2, pos, pos, out);
                }
            },
        }
    }
}

/// A possessive quantifier's search either gives up, or ends with its
/// concluding failure step at some count, or is exactly the search of the
/// continuation `rest` from the position `p` its last repetition reached,
/// right after the concluding success step, which records the consumed span
/// `[l.start, p)`; and every `Backtrack` step after that concluding step
/// resumes at `p` or later, never inside the consumed span.
pub open spec fn committed<'a>(
    inp: Seq<char>,
    rest: Seq<Work<'a>>,
    l: LoopState<'a>,
    limit: usize,
    out: (Outcome, Seq<Step>),
) -> bool {
    ||| out.0 is Exhausted
    ||| exists|n: usize, p: usize|
        out.0 == Outcome::Failed(p) && out.1.len() > 0 && out.1.last() == #[trigger] finish_fail(
            LoopState { count: n, ..l },
            p,
        )
    ||| exists|n: usize, p: usize, c: CapsModel, t0: Seq<Step>, f: usize|
        out == #[trigger] run(inp, rest, p, c, t0.push(finish_ok(LoopState { count: n, ..l }, p)), limit, f)
            && resumes_from(out.1, t0.len() + 1int, p)
}

/// A possessive quantifier commits to the count it reaches: whatever
/// follows its concluding step is the search of the continuation alone, and
/// no `Backtrack` step after it resumes inside the span it consumed.
pub proof fn possessive_commits<'a>(
    inp: Seq<char>,
    rest: Seq<Work<'a>>,
    l: LoopState<'a>,
    pos: usize,
    caps: CapsModel,
    tr: Seq<Step>,
    limit: usize,
    fuel: usize,
)
    requires
        inp.len() <= usize::MAX,
    ensures
        committed(inp, rest, l, limit, possessive(inp, rest, l, pos, caps, tr, limit, fuel)),
    decreases fuel,
{
    if fuel > 0 {
        let f = (fuel - 1) as usize;
        let can = match l.max {
            None => l.count < usize::MAX,
            Some(m) => l.count < m,
        };
        let (r, t2) = if can {
            run(inp, seq![Work::Accept, Work::Node { part: l.inner, base: l.base }], pos, caps, tr, limit, f)
        } else {
            (Outcome::Failed(pos), tr)
        };
        let out = possessive(inp, rest, l, pos, caps, tr, limit, fuel);
        let here = LoopState { count: l.count, ..l };
        assert(here == l);
        match r {
            Outcome::Exhausted => {},
            Outcome::Matched(reached, c2) => {
                if reached != pos || l.count < l.min {
                    let next = LoopState { count: (l.count + 1) as usize, ..l };
                    possessive_commits(inp, rest, next, reached, c2, t2, limit, f);
                    assert(committed(inp, rest, next, limit, out));
                } else {
                    assert(out == run(inp, rest, pos, caps, t2.push(finish_ok(here, pos)), limit, f));
                    run_goes_forward(inp, rest, pos, caps, t2.push(finish_ok(here, pos)), limit, f);
                }
            },
            Outcome::Failed(_) => {
                if l.count >= l.min {
                    assert(out == run(inp, rest, pos, caps, t2.push(finish_ok(here, pos)), limit, f));
                    run_goes_forward(inp, rest, pos, caps, t2.push(finish_ok(here, pos)), limit, f);
                } else {
                    assert(out.1.last() == finish_fail(here, pos));
                }
            },
        }
    }
}

/// Why `match_pattern` produced no matching.
#[derive(Debug, Clone, PartialEq, Eq)]
pub enum MatchError {
    /// The pattern does not parse; the error is the parser's, unchanged.
    Parse(crate::parser::ParseError),
    /// Matching gave up (see `ExecError`).
    Exhausted,
}

/// Parses `pattern`, then matches it against the whole of `input`.
pub fn match_pattern(pattern: &str, input: &str, limit: usize) -> (r: Result<Matching, MatchError>)
    ensures
        crate::parser::parse_model(pattern@) matches Err(e) ==> (r matches Err(MatchError::Parse(pe))
            && (pe.code, pe.position as int) == e),
        crate::parser::parse_model(pattern@) is Ok ==> exists|t: RegexPart|
            Ok::<_, (crate::parser::ParseErrorCode, int)>(#[trigger] t.view()) == crate::parser::parse_model(pattern@)
                && match r {
                    Ok(m) => execute_model(&t, input@, limit) == Some(m.view()),
                    Err(MatchError::Exhausted) => execute_model(&t, input@, limit) is None,
                    Err(MatchError::Parse(_)) => false,
                },
{
    match crate::parser::parse(pattern) {
        Err(e) => Err(MatchError::Parse(e)),
        Ok(tree) => match execute(&tree, input, limit) {
            Ok(m) => Ok(m),
            Err(_) => Err(MatchError::Exhausted),
        },
    }
}

} // verus!

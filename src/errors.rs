//! Classification of grammar failures into a small, closed set of error kinds.
use vstd::prelude::*;
use crate::grammar::{lemma_span_end, scan, span_end, CharClass, Failure, Mismatch, Rule};

verus! {

/// What went wrong, in the terms of a commit message's parts.
#[derive(Clone, Copy, Debug, PartialEq, Eq, Structural)]
#[non_exhaustive]
pub enum ParseErrorKind {
    InvalidCommitType,
    InvalidScopeDelimiter,
    InvalidScopeNoun,
    InvalidTokenSeparator,
    InvalidDescription,
    InvalidBody,
    InvalidFooter,
    Other,
}

/// The kind of a failure, by the first rule of this list that was expected.
pub open spec fn classify(expected: Seq<Rule>) -> ParseErrorKind {
    if expected.contains(Rule::CommitType) {
        ParseErrorKind::InvalidCommitType
    } else if expected.contains(Rule::ScopeToken) {
        ParseErrorKind::InvalidScopeNoun
    } else if expected.contains(Rule::ColonSeparator) {
        ParseErrorKind::InvalidTokenSeparator
    } else if expected.contains(Rule::Description) {
        ParseErrorKind::InvalidDescription
    } else if expected.contains(Rule::Body) {
        ParseErrorKind::InvalidBody
    } else if expected.contains(Rule::FooterToken) || expected.contains(Rule::FooterSeparator) {
        ParseErrorKind::InvalidFooter
    } else {
        ParseErrorKind::Other
    }
}

pub fn contains_rule(v: &Vec<Rule>, x: Rule) -> (r: bool)
    ensures
        r == v@.contains(x),
{
    let mut i: usize = 0;
    while i < v.len()
        invariant
            i <= v.len(),
            forall|j: int| 0 <= j < i ==> v@[j] != x,
        decreases v.len() - i,
    {
        if v[i] == x {
            return true;
        }
        i += 1;
    }
    false
}

pub fn classify_rules(expected: &Vec<Rule>) -> (r: ParseErrorKind)
    ensures
        r == classify(expected@),
{
    if contains_rule(expected, Rule::CommitType) {
        ParseErrorKind::InvalidCommitType
    } else if contains_rule(expected, Rule::ScopeToken) {
        ParseErrorKind::InvalidScopeNoun
    } else if contains_rule(expected, Rule::ColonSeparator) {
        ParseErrorKind::InvalidTokenSeparator
    } else if contains_rule(expected, Rule::Description) {
        ParseErrorKind::InvalidDescription
    } else if contains_rule(expected, Rule::Body) {
        ParseErrorKind::InvalidBody
    } else if contains_rule(expected, Rule::FooterToken) || contains_rule(
        expected,
        Rule::FooterSeparator,
    ) {
        ParseErrorKind::InvalidFooter
    } else {
        ParseErrorKind::Other
    }
}

/// The raw diagnostic of a failed parse: where it failed, on which line, and what the
/// grammar expected there.
#[derive(Debug, PartialEq)]
pub struct Diagnostic {
    /// Offset of the failure, in characters.
    pub offset: usize,
    /// Line of the failure, from 1.
    pub line: usize,
    /// Column of the failure, in characters from 1.
    pub column: usize,
    /// The line on which the failure stands.
    pub snippet: String,
    /// The rules that were expected at the failure.
    pub expected: Vec<Rule>,
}

/// A classified parse failure with its raw diagnostic.
#[derive(Debug, PartialEq)]
pub struct ParseError {
    pub kind: ParseErrorKind,
    pub inner: Diagnostic,
}

/// The number of line feeds before offset `o`.
pub open spec fn newlines_before(s: Seq<char>, o: int) -> int
    decreases o,
{
    if o <= 0 {
        0
    } else {
        newlines_before(s, o - 1) + if s[o - 1] == '\n' {
            1int
        } else {
            0int
        }
    }
}

/// The offset at which the line holding offset `o` starts.
pub open spec fn line_start(s: Seq<char>, o: int) -> int
    decreases o,
{
    if o <= 0 {
        0
    } else if s[o - 1] == '\n' {
        o
    } else {
        line_start(s, o - 1)
    }
}

/// `x`, or the largest `usize` where `x` is larger.
pub open spec fn clamp(x: int) -> int {
    if x > usize::MAX {
        usize::MAX as int
    } else {
        x
    }
}

/// `e` reports failure `f` of a parse of `s`.
pub open spec fn reports(e: ParseError, s: Seq<char>, f: Failure) -> bool {
    let start = line_start(s, f.offset);
    &&& e.kind == classify(f.expected)
    &&& e.inner.offset == f.offset
    &&& e.inner.expected@ == f.expected
    &&& e.inner.line == clamp(newlines_before(s, f.offset) + 1)
    &&& e.inner.column == clamp(f.offset - start + 1)
    &&& e.inner.snippet@ == s.subrange(start, span_end(s, start, CharClass::LineChar))
}

/// `r` failed, and `e` reports its failure on input `s`.
pub open spec fn rejected<T>(r: Result<T, Failure>, e: ParseError, s: Seq<char>) -> bool {
    match r {
        Ok(_) => false,
        Err(f) => reports(e, s, f),
    }
}

proof fn lemma_line_start(s: Seq<char>, o: int)
    requires
        0 <= o <= s.len(),
    ensures
        0 <= line_start(s, o) <= o,
        0 <= newlines_before(s, o) <= o,
    decreases o,
{
    if o > 0 {
        lemma_line_start(s, o - 1);
    }
}

impl ParseError {
    /// The error that reports `m` on input `text`.
    pub fn at(s: &Vec<char>, text: &str, m: Mismatch) -> (r: ParseError)
        requires
            s@ == text@,
            m.offset <= s.len(),
        ensures
            reports(r, s@, m@),
    {
        let mut count: usize = 0;
        let mut start: usize = 0;
        let mut i: usize = 0;
        while i < m.offset
            invariant
                i <= m.offset <= s.len(),
                count == newlines_before(s@, i as int),
                start == line_start(s@, i as int),
                count <= i,
                start <= i,
            decreases m.offset - i,
        {
            if s[i] == '\n' {
                count += 1;
                start = i + 1;
            }
            i += 1;
        }
        let line = if count < usize::MAX {
            count + 1
        } else {
            count
        };
        let width = m.offset - start;
        let column = if width < usize::MAX {
            width + 1
        } else {
            width
        };
        let end = scan(s, start, CharClass::LineChar);
        let snippet = String::from_str(text.substring_char(start, end));
        let kind = classify_rules(&m.expected);
        ParseError {
            kind,
            inner: Diagnostic { offset: m.offset, line, column, snippet, expected: m.expected },
        }
    }
}

} // verus!

//! The grammar of a conventional commit, stated over sequences of characters.
//!
//! Every production is a deterministic, anchored, greedy scan: the spec functions
//! below say where each scan stops, and the executable scanners are proved to stop
//! at the same place. A failed production reports the offset at which it failed and
//! the rules that were expected there.
use vstd::prelude::*;
use crate::conventional_commit::{
    any_breaking, breaking_change_chars, breaking_change_spaced, commit_type_of, CommitView,
    Footer, FooterView, Separator,
};
use crate::text::{has_at, trim, trim_bounds};

verus! {

/// Identifiers of the grammar's rules, as reported when a parse fails.
#[derive(Clone, Copy, Debug, PartialEq, Eq, Structural)]
pub enum Rule {
    CommitType,
    Scope,
    ScopeToken,
    BreakingChangeIndicator,
    ColonSeparator,
    Description,
    Body,
    Footer,
    FooterToken,
    FooterSeparator,
    Eoi,
}

/// Where a production failed and what it expected there.
pub struct Failure {
    pub offset: int,
    pub expected: Seq<Rule>,
}

pub open spec fn fail(offset: int, expected: Seq<Rule>) -> Failure {
    Failure { offset, expected }
}

/// A failure as the executable engine reports it.
pub struct Mismatch {
    pub offset: usize,
    pub expected: Vec<Rule>,
}

impl View for Mismatch {
    type V = Failure;

    open spec fn view(&self) -> Failure {
        Failure { offset: self.offset as int, expected: self.expected@ }
    }
}

/// The classes of characters that a single scan runs over.
#[derive(Clone, Copy, Debug, PartialEq, Eq, Structural)]
pub enum CharClass {
    /// ASCII letters, the characters of a commit type.
    Alpha,
    /// ASCII letters and digits, the characters of a footer token's words.
    Alnum,
    /// Anything but a parenthesis, the characters of a scope.
    ScopeChar,
    /// Anything but a line feed, the characters of one line.
    LineChar,
    /// Line feeds only.
    Newline,
}

pub open spec fn is_ascii_alpha(c: char) -> bool {
    ('a' <= c && c <= 'z') || ('A' <= c && c <= 'Z')
}

pub open spec fn is_ascii_alnum(c: char) -> bool {
    is_ascii_alpha(c) || ('0' <= c && c <= '9')
}

pub open spec fn in_class(k: CharClass, c: char) -> bool {
    match k {
        CharClass::Alpha => is_ascii_alpha(c),
        CharClass::Alnum => is_ascii_alnum(c),
        CharClass::ScopeChar => c != '(' && c != ')',
        CharClass::LineChar => c != '\n',
        CharClass::Newline => c == '\n',
    }
}

/// The end of the longest run of characters of class `k` that starts at `i`.
pub open spec fn span_end(s: Seq<char>, i: int, k: CharClass) -> int
    decreases s.len() - i,
{
    if 0 <= i < s.len() && in_class(k, s[i]) {
        span_end(s, i + 1, k)
    } else {
        i
    }
}

/// Where a run ends: within the input, after characters of the class only, and before one
/// that is not of it.
pub proof fn lemma_span_end(s: Seq<char>, i: int, k: CharClass)
    requires
        0 <= i <= s.len(),
    ensures
        i <= span_end(s, i, k) <= s.len(),
        forall|j: int| i <= j < span_end(s, i, k) ==> in_class(k, #[trigger] s[j]),
        span_end(s, i, k) < s.len() ==> !in_class(k, s[span_end(s, i, k)]),
    decreases s.len() - i,
{
    if i < s.len() && in_class(k, s[i]) {
        lemma_span_end(s, i + 1, k);
    }
}

/// Whether `c` is of class `k`.
pub fn class_has(k: CharClass, c: char) -> (r: bool)
    ensures
        r == in_class(k, c),
{
    match k {
        CharClass::Alpha => ('a' <= c && c <= 'z') || ('A' <= c && c <= 'Z'),
        CharClass::Alnum => ('a' <= c && c <= 'z') || ('A' <= c && c <= 'Z') || ('0' <= c && c
            <= '9'),
        CharClass::ScopeChar => c != '(' && c != ')',
        CharClass::LineChar => c != '\n',
        CharClass::Newline => c == '\n',
    }
}

/// Scans the longest run of class `k` from `i`.
pub fn scan(s: &Vec<char>, i: usize, k: CharClass) -> (r: usize)
    requires
        i <= s.len(),
    ensures
        r == span_end(s@, i as int, k),
        i <= r <= s.len(),
{
    let mut j = i;
    while j < s.len() && class_has(k, s[j])
        invariant
            i <= j <= s.len(),
            span_end(s@, j as int, k) == span_end(s@, i as int, k),
        decreases s.len() - j,
    {
        j += 1;
    }
    proof {
        lemma_span_end(s@, i as int, k);
    }
    j
}

/// The characters of `s`, in order.
pub fn chars_of(s: &str) -> (r: Vec<char>)
    ensures
        r@ == s@,
{
    let n = s.unicode_len();
    let mut v: Vec<char> = Vec::new();
    let mut i: usize = 0;
    while i < n
        invariant
            n == s@.len(),
            i <= n,
            v@ == s@.subrange(0, i as int),
        decreases n - i,
    {
        v.push(s.get_char(i));
        i += 1;
        assert(v@ =~= s@.subrange(0, i as int));
    }
    assert(v@ =~= s@);
    v
}

// ---------------------------------------------------------------- footers

/// The footer separator that starts at `t`, if any.
pub open spec fn sep_at(s: Seq<char>, t: int) -> Option<Separator> {
    if 0 <= t && t + 1 < s.len() {
        if s[t] == ':' && s[t + 1] == ' ' {
            Some(Separator::Colon)
        } else if s[t] == ' ' && s[t + 1] == '#' {
            Some(Separator::Pound)
        } else if s[t] == ':' && s[t + 1] == '\n' {
            Some(Separator::ColonWithNewline)
        } else {
            None
        }
    } else {
        None
    }
}

/// The end of the hyphen-joined words that start at `i`.
pub open spec fn words_end(s: Seq<char>, i: int) -> int
    decreases s.len() - i,
{
    let w = span_end(s, i, CharClass::Alnum);
    if i < w && w + 1 < s.len() && s[w] == '-' && is_ascii_alnum(s[w + 1]) {
        words_end(s, w + 1)
    } else {
        w
    }
}

pub open spec fn occurs_at(s: Seq<char>, p: int, lit: Seq<char>) -> bool {
    0 <= p && p + lit.len() <= s.len() && s.subrange(p, p + lit.len()) == lit
}

/// The end of the footer token at `p`: the literal `BREAKING CHANGE` when a separator
/// follows it, else hyphen-joined words.
pub open spec fn token_end(s: Seq<char>, p: int) -> int {
    if occurs_at(s, p, breaking_change_spaced()) && sep_at(s, p + 15) is Some {
        p + 15
    } else {
        words_end(s, p)
    }
}

/// Whether a footer (a token and a separator) starts at `p`.
pub open spec fn footer_start(s: Seq<char>, p: int) -> bool {
    token_end(s, p) > p && sep_at(s, token_end(s, p)) is Some
}

/// Why no footer starts at `p`.
pub open spec fn footer_failure(s: Seq<char>, p: int) -> Failure {
    if token_end(s, p) > p {
        fail(token_end(s, p), seq![Rule::FooterSeparator])
    } else {
        fail(p, seq![Rule::FooterToken])
    }
}

/// The end of a multi-line footer value whose previous line ended at `j`: the value
/// runs on over non-empty lines that do not start another footer.
pub open spec fn ml_end(s: Seq<char>, j: int) -> int
    decreases s.len() - j,
    via ml_end_decreases
{
    if 0 <= j && j + 1 < s.len() && s[j + 1] != '\n' && !footer_start(s, j + 1) {
        ml_end(s, span_end(s, j + 1, CharClass::LineChar))
    } else {
        j
    }
}

#[via_fn]
proof fn ml_end_decreases(s: Seq<char>, j: int) {
    if 0 <= j && j + 1 < s.len() && s[j + 1] != '\n' && !footer_start(s, j + 1) {
        lemma_span_end(s, j + 1, CharClass::LineChar);
    }
}

/// The footer that starts at `p`, and where its value ends.
pub open spec fn footer_at(s: Seq<char>, p: int) -> (FooterView, int) {
    let t = token_end(s, p);
    match sep_at(s, t) {
        Some(Separator::ColonWithNewline) => {
            let k = ml_end(s, t + 1);
            (
                FooterView {
                    token: s.subrange(p, t),
                    separator: Separator::ColonWithNewline,
                    content: trim(s.subrange(t + 1, k)),
                },
                k,
            )
        },
        Some(sep) => {
            let e = span_end(s, t + 2, CharClass::LineChar);
            (FooterView { token: s.subrange(p, t), separator: sep, content: trim(s.subrange(t + 2, e)) }, e)
        },
        None => (FooterView { token: s.subrange(p, t), separator: Separator::Colon, content: Seq::empty() }, t),
    }
}

pub proof fn lemma_words_end(s: Seq<char>, i: int)
    requires
        0 <= i <= s.len(),
    ensures
        i <= words_end(s, i) <= s.len(),
    decreases s.len() - i,
{
    lemma_span_end(s, i, CharClass::Alnum);
    let w = span_end(s, i, CharClass::Alnum);
    if i < w && w + 1 < s.len() && s[w] == '-' && is_ascii_alnum(s[w + 1]) {
        lemma_words_end(s, w + 1);
    }
}

pub proof fn lemma_ml_end(s: Seq<char>, j: int)
    requires
        0 <= j <= s.len(),
        j == s.len() || s[j] == '\n',
    ensures
        j <= ml_end(s, j) <= s.len(),
        ml_end(s, j) == s.len() || s[ml_end(s, j)] == '\n',
    decreases s.len() - j,
{
    if 0 <= j && j + 1 < s.len() && s[j + 1] != '\n' && !footer_start(s, j + 1) {
        lemma_span_end(s, j + 1, CharClass::LineChar);
        lemma_ml_end(s, span_end(s, j + 1, CharClass::LineChar));
    }
}

pub proof fn lemma_footer_at(s: Seq<char>, p: int)
    requires
        footer_start(s, p),
    ensures
        0 <= p < token_end(s, p) < footer_at(s, p).1 <= s.len(),
        footer_at(s, p).1 == s.len() || s[footer_at(s, p).1] == '\n',
{
    if p < 0 {
        assert(!occurs_at(s, p, breaking_change_spaced()));
        assert(span_end(s, p, CharClass::Alnum) == p);
    }
    let t = token_end(s, p);
    if !(occurs_at(s, p, breaking_change_spaced()) && sep_at(s, p + 15) is Some) {
        lemma_words_end(s, p);
    }
    match sep_at(s, t) {
        Some(Separator::ColonWithNewline) => {
            lemma_ml_end(s, t + 1);
        },
        Some(sep) => {
            lemma_span_end(s, t + 2, CharClass::LineChar);
        },
        None => {},
    }
}

/// The footers block that starts at `p`: footers separated by line feeds, up to the end
/// of the input, which may hold trailing line feeds.
pub open spec fn footers_from(s: Seq<char>, p: int) -> Result<Seq<FooterView>, Failure>
    decreases s.len() - p,
    via footers_from_decreases
{
    if !footer_start(s, p) {
        Err(footer_failure(s, p))
    } else {
        let n = span_end(s, footer_at(s, p).1, CharClass::Newline);
        if n >= s.len() {
            Ok(seq![footer_at(s, p).0])
        } else {
            match footers_from(s, n) {
                Ok(fs) => Ok(seq![footer_at(s, p).0] + fs),
                Err(e) => Err(e),
            }
        }
    }
}

#[via_fn]
proof fn footers_from_decreases(s: Seq<char>, p: int) {
    if footer_start(s, p) {
        lemma_footer_at(s, p);
        lemma_span_end(s, footer_at(s, p).1, CharClass::Newline);
    }
}

// ---------------------------------------------------------------- body

/// The body whose current line starts at `p`: where the body ends, and where the footers
/// start if a paragraph that starts with a footer ends it.
pub open spec fn body_end(s: Seq<char>, p: int) -> Result<(int, Option<int>), Failure>
    decreases s.len() - p,
    via body_end_decreases
{
    let e = span_end(s, p, CharClass::LineChar);
    if e + 1 >= s.len() {
        Ok((e, None))
    } else if s[e + 1] != '\n' {
        body_end(s, e + 1)
    } else if span_end(s, e, CharClass::Newline) >= s.len() {
        Ok((e, None))
    } else if e + 2 < s.len() && s[e + 2] == '\n' {
        Err(fail(e + 2, seq![Rule::Body, Rule::Footer]))
    } else if footer_start(s, e + 2) {
        Ok((e, Some(e + 2)))
    } else {
        body_end(s, e + 2)
    }
}

#[via_fn]
proof fn body_end_decreases(s: Seq<char>, p: int) {
    if 0 <= p <= s.len() {
        lemma_span_end(s, p, CharClass::LineChar);
    }
}

// ---------------------------------------------------------------- header and commit

/// What a header holds, and where it ends.
pub struct HeaderView {
    pub commit_type: Seq<char>,
    pub scope: Option<Seq<char>>,
    pub breaking: bool,
    pub description: Seq<char>,
    pub end: int,
}

/// What the header expected where its separator should have stood.
pub open spec fn separator_expected(has_scope: bool, bang: bool) -> Seq<Rule> {
    if bang {
        seq![Rule::ColonSeparator]
    } else if has_scope {
        seq![Rule::BreakingChangeIndicator, Rule::ColonSeparator]
    } else {
        seq![Rule::Scope, Rule::BreakingChangeIndicator, Rule::ColonSeparator]
    }
}

/// The header: `type[(scope)][!]: description`.
pub open spec fn header(s: Seq<char>) -> Result<HeaderView, Failure> {
    let t = span_end(s, 0, CharClass::Alpha);
    let has_scope = t < s.len() && s[t] == '(';
    let k = span_end(s, t + 1, CharClass::ScopeChar);
    let p = if has_scope {
        k + 1
    } else {
        t
    };
    let bang = p < s.len() && s[p] == '!';
    let q = if bang {
        p + 1
    } else {
        p
    };
    let d = span_end(s, q + 2, CharClass::LineChar);
    if t == 0 {
        Err(fail(0, seq![Rule::CommitType]))
    } else if has_scope && k == t + 1 {
        Err(fail(t + 1, seq![Rule::ScopeToken]))
    } else if has_scope && !(k < s.len() && s[k] == ')') {
        Err(fail(k, seq![Rule::Scope]))
    } else if !(q + 1 < s.len() && s[q] == ':' && s[q + 1] == ' ') {
        Err(fail(q, separator_expected(has_scope, bang)))
    } else if d == q + 2 {
        Err(fail(q + 2, seq![Rule::Description]))
    } else {
        Ok(
            HeaderView {
                commit_type: s.subrange(0, t),
                scope: if has_scope {
                    Some(s.subrange(t + 1, k))
                } else {
                    None
                },
                breaking: bang,
                description: s.subrange(q + 2, d),
                end: d,
            },
        )
    }
}

/// What follows a header that ends at `d`: nothing but line feeds, or a blank line and
/// then a body, footers, or a body and then footers.
#[verifier::opaque]
pub open spec fn sections(s: Seq<char>, d: int) -> Result<(Option<Seq<char>>, Seq<FooterView>), Failure> {
    if span_end(s, d, CharClass::Newline) >= s.len() {
        Ok((None, Seq::empty()))
    } else if !(d + 1 < s.len() && s[d + 1] == '\n') {
        Err(fail(d + 1, seq![Rule::Eoi]))
    } else if d + 2 < s.len() && s[d + 2] == '\n' {
        Err(fail(d + 2, seq![Rule::Body, Rule::Footer]))
    } else if footer_start(s, d + 2) {
        match footers_from(s, d + 2) {
            Ok(fs) => Ok((None, fs)),
            Err(e) => Err(e),
        }
    } else {
        match body_end(s, d + 2) {
            Err(e) => Err(e),
            Ok((e, None)) => Ok((Some(s.subrange(d + 2, e)), Seq::empty())),
            Ok((e, Some(q))) => match footers_from(s, q) {
                Ok(fs) => Ok((Some(s.subrange(d + 2, e)), fs)),
                Err(x) => Err(x),
            },
        }
    }
}

/// The commit that a header and its sections make.
pub open spec fn commit_of(h: HeaderView, body: Option<Seq<char>>, fs: Seq<FooterView>) -> CommitView {
    CommitView {
        commit_type: commit_type_of(h.commit_type),
        scope: h.scope,
        description: h.description,
        body,
        footers: fs,
        is_breaking_change: h.breaking || any_breaking(fs),
    }
}

/// A whole commit message.
#[verifier::opaque]
pub open spec fn commit_spec(s: Seq<char>) -> Result<CommitView, Failure> {
    match header(s) {
        Err(f) => Err(f),
        Ok(h) => match sections(s, h.end) {
            Err(f) => Err(f),
            Ok((b, fs)) => Ok(commit_of(h, b, fs)),
        },
    }
}

// ---------------------------------------------------------------- single fragments

/// The whole input as one run of class `k`, reported as `rule` when it is empty.
pub open spec fn whole_run(s: Seq<char>, k: CharClass, rule: Rule) -> Result<Seq<char>, Failure> {
    let e = span_end(s, 0, k);
    if e == 0 {
        Err(fail(0, seq![rule]))
    } else if e < s.len() {
        Err(fail(e, seq![Rule::Eoi]))
    } else {
        Ok(s)
    }
}

/// A commit type alone: ASCII letters.
pub open spec fn commit_type_spec(s: Seq<char>) -> Result<Seq<char>, Failure> {
    whole_run(s, CharClass::Alpha, Rule::CommitType)
}

/// A scope alone: characters other than parentheses.
pub open spec fn scope_spec(s: Seq<char>) -> Result<Seq<char>, Failure> {
    whole_run(s, CharClass::ScopeChar, Rule::ScopeToken)
}

/// A description alone: one non-empty line.
pub open spec fn description_spec(s: Seq<char>) -> Result<Seq<char>, Failure> {
    whole_run(s, CharClass::LineChar, Rule::Description)
}

/// A body alone: paragraphs of non-empty lines, one blank line between two paragraphs.
pub open spec fn body_spec(s: Seq<char>) -> Result<Seq<char>, Failure> {
    if s.len() == 0 || s[0] == '\n' {
        Err(fail(0, seq![Rule::Body]))
    } else {
        match body_end(s, 0) {
            Err(f) => Err(f),
            Ok((e, _)) => if e < s.len() {
                Err(fail(e, seq![Rule::Eoi]))
            } else {
                Ok(s)
            },
        }
    }
}

/// A single footer alone.
pub open spec fn footer_spec(s: Seq<char>) -> Result<FooterView, Failure> {
    if !footer_start(s, 0) {
        Err(footer_failure(s, 0))
    } else if footer_at(s, 0).1 < s.len() {
        Err(fail(footer_at(s, 0).1, seq![Rule::Eoi]))
    } else {
        Ok(footer_at(s, 0).0)
    }
}

/// One or more footers alone.
pub open spec fn footers_spec(s: Seq<char>) -> Result<Seq<FooterView>, Failure> {
    footers_from(s, 0)
}

} // verus!

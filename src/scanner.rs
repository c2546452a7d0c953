//! The executable grammar engine: each scanner is proved to stop where the grammar's
//! spec function says, and to fail exactly where it says, with the same expected rules.
use vstd::prelude::*;
use crate::conventional_commit::{
    breaking_change_chars, footer_views, Footer, FooterView, Separator,
};
use crate::grammar::{
    body_end, class_has, fail, footer_at, footer_failure, footer_start, footers_from, header,
    lemma_footer_at, lemma_ml_end, lemma_span_end, ml_end, scan, sections, sep_at,
    separator_expected, token_end, words_end, CharClass, Failure, HeaderView, Mismatch, Rule,
};
use crate::text::{has_at, trim_bounds};

verus! {

/// A list of one expected rule.
pub fn one_rule(a: Rule) -> (r: Vec<Rule>)
    ensures
        r@ == seq![a],
{
    let mut v = Vec::new();
    v.push(a);
    assert(v@ =~= seq![a]);
    v
}

/// A list of two expected rules.
pub fn two_rules(a: Rule, b: Rule) -> (r: Vec<Rule>)
    ensures
        r@ == seq![a, b],
{
    let mut v = Vec::new();
    v.push(a);
    v.push(b);
    assert(v@ =~= seq![a, b]);
    v
}

/// The footer separator at `t` (see `sep_at`).
pub fn sep_at_exec(s: &Vec<char>, t: usize) -> (r: Option<Separator>)
    ensures
        r == sep_at(s@, t as int),
{
    if t < s.len() && t + 1 < s.len() {
        let a = s[t];
        let b = s[t + 1];
        if a == ':' && b == ' ' {
            Some(Separator::Colon)
        } else if a == ' ' && b == '#' {
            Some(Separator::Pound)
        } else if a == ':' && b == '\n' {
            Some(Separator::ColonWithNewline)
        } else {
            None
        }
    } else {
        None
    }
}

/// The end of the hyphen-joined words at `i` (see `words_end`).
pub fn words_end_exec(s: &Vec<char>, i: usize) -> (r: usize)
    requires
        i <= s.len(),
    ensures
        r == words_end(s@, i as int),
        i <= r <= s.len(),
{
    let mut j = i;
    loop
        invariant
            i <= j <= s.len(),
            words_end(s@, j as int) == words_end(s@, i as int),
        decreases s.len() - j,
    {
        let w = scan(s, j, CharClass::Alnum);
        if j < w && w < s.len() && w + 1 < s.len() && s[w] == '-' && class_has(CharClass::Alnum, s[w + 1]) {
            j = w + 1;
        } else {
            return w;
        }
    }
}

/// The end of the footer token at `p` (see `token_end`).
pub fn token_end_exec(s: &Vec<char>, p: usize) -> (r: usize)
    requires
        p <= s.len(),
    ensures
        r == token_end(s@, p as int),
        p <= r <= s.len(),
{
    let lit = breaking_change_chars();
    assert(lit@.len() == 15);
    if has_at(s, p, &lit) {
        if sep_at_exec(s, p + 15).is_some() {
            return p + 15;
        }
    }
    words_end_exec(s, p)
}

/// Whether a footer starts at `p` (see `footer_start`).
pub fn footer_start_exec(s: &Vec<char>, p: usize) -> (r: bool)
    requires
        p <= s.len(),
    ensures
        r == footer_start(s@, p as int),
{
    let t = token_end_exec(s, p);
    t > p && sep_at_exec(s, t).is_some()
}

/// Why no footer starts at `p` (see `footer_failure`).
pub fn footer_failure_exec(s: &Vec<char>, p: usize) -> (r: Mismatch)
    requires
        p <= s.len(),
    ensures
        r@ == footer_failure(s@, p as int),
        r.offset <= s.len(),
{
    let t = token_end_exec(s, p);
    if t > p {
        Mismatch { offset: t, expected: one_rule(Rule::FooterSeparator) }
    } else {
        Mismatch { offset: p, expected: one_rule(Rule::FooterToken) }
    }
}

/// The end of a multi-line footer value (see `ml_end`).
pub fn ml_end_exec(s: &Vec<char>, j0: usize) -> (r: usize)
    requires
        j0 <= s.len(),
        j0 == s.len() || s@[j0 as int] == '\n',
    ensures
        r == ml_end(s@, j0 as int),
{
    let mut j = j0;
    loop
        invariant
            j0 <= j <= s.len(),
            j == s.len() || s@[j as int] == '\n',
            ml_end(s@, j as int) == ml_end(s@, j0 as int),
        decreases s.len() - j,
    {
        if j < s.len() && j + 1 < s.len() && s[j + 1] != '\n' && !footer_start_exec(s, j + 1) {
            let e = scan(s, j + 1, CharClass::LineChar);
            proof {
                lemma_span_end(s@, j + 1, CharClass::LineChar);
            }
            j = e;
        } else {
            return j;
        }
    }
}

/// The footer that starts at `p`, and where its value ends.
pub fn footer_at_exec(s: &Vec<char>, text: &str, p: usize) -> (r: (Footer, usize))
    requires
        s@ == text@,
        p <= s.len(),
        footer_start(s@, p as int),
    ensures
        r.0@ == footer_at(s@, p as int).0,
        r.1 == footer_at(s@, p as int).1,
{
    proof {
        lemma_footer_at(s@, p as int);
    }
    let t = token_end_exec(s, p);
    let token = String::from_str(text.substring_char(p, t));
    match sep_at_exec(s, t) {
        Some(Separator::ColonWithNewline) => {
            let k = ml_end_exec(s, t + 1);
            proof {
                lemma_ml_end(s@, t + 1);
            }
            let (a, b) = trim_bounds(s, t + 1, k);
            let content = String::from_str(text.substring_char(a, b));
            (Footer { token, separator: Separator::ColonWithNewline, content }, k)
        },
        Some(sep) => {
            let e = scan(s, t + 2, CharClass::LineChar);
            let (a, b) = trim_bounds(s, t + 2, e);
            let content = String::from_str(text.substring_char(a, b));
            (Footer { token, separator: sep, content }, e)
        },
        None => (Footer { token, separator: Separator::Colon, content: String::new() }, t),
    }
}

/// `r` with `pre` before its footers.
pub open spec fn prefixed(pre: Seq<FooterView>, r: Result<Seq<FooterView>, Failure>) -> Result<
    Seq<FooterView>,
    Failure,
> {
    match r {
        Ok(fs) => Ok(pre + fs),
        Err(e) => Err(e),
    }
}

/// The footers block at `p0` (see `footers_from`).
pub fn footers_from_exec(s: &Vec<char>, text: &str, p0: usize) -> (r: Result<Vec<Footer>, Mismatch>)
    requires
        s@ == text@,
        p0 <= s.len(),
    ensures
        match r {
            Ok(v) => footers_from(s@, p0 as int) == Ok::<Seq<FooterView>, Failure>(
                footer_views(v@),
            ),
            Err(m) => footers_from(s@, p0 as int) == Err::<Seq<FooterView>, Failure>(m@)
                && m.offset <= s.len(),
        },
{
    let mut out: Vec<Footer> = Vec::new();
    let mut p = p0;
    assert(footer_views(out@) =~= Seq::<FooterView>::empty());
    assert(prefixed(Seq::empty(), footers_from(s@, p0 as int)) =~= footers_from(s@, p0 as int))
        by {
        match footers_from(s@, p0 as int) {
            Ok(fs) => {
                assert(Seq::<FooterView>::empty() + fs =~= fs);
            },
            Err(e) => {},
        }
    }
    loop
        invariant
            s@ == text@,
            p <= s.len(),
            footers_from(s@, p0 as int) == prefixed(footer_views(out@), footers_from(s@, p as int)),
        decreases s.len() - p,
    {
        if !footer_start_exec(s, p) {
            return Err(footer_failure_exec(s, p));
        }
        proof {
            lemma_footer_at(s@, p as int);
        }
        let (f, k) = footer_at_exec(s, text, p);
        let n = scan(s, k, CharClass::Newline);
        let ghost pre = footer_views(out@);
        let ghost fv = f@;
        out.push(f);
        assert(footer_views(out@) =~= pre.push(fv));
        if n >= s.len() {
            assert(pre + seq![fv] =~= pre.push(fv));
            return Ok(out);
        }
        assert(prefixed(pre, prefixed(seq![fv], footers_from(s@, n as int))) == prefixed(
            pre.push(fv),
            footers_from(s@, n as int),
        )) by {
            match footers_from(s@, n as int) {
                Ok(fs) => {
                    assert(pre + (seq![fv] + fs) =~= pre.push(fv) + fs);
                },
                Err(e) => {},
            }
        }
        p = n;
    }
}

pub open spec fn opt_int(q: Option<usize>) -> Option<int> {
    match q {
        Some(x) => Some(x as int),
        None => None,
    }
}

/// The end of the body whose first line starts at `p0` (see `body_end`).
pub fn body_end_exec(s: &Vec<char>, p0: usize) -> (r: Result<(usize, Option<usize>), Mismatch>)
    requires
        p0 <= s.len(),
    ensures
        match r {
            Ok((e, q)) => body_end(s@, p0 as int) == Ok::<(int, Option<int>), Failure>(
                (e as int, opt_int(q)),
            ) && p0 <= e <= s.len() && (q matches Some(x) ==> x <= s.len()),
            Err(m) => body_end(s@, p0 as int) == Err::<(int, Option<int>), Failure>(m@)
                && m.offset <= s.len(),
        },
{
    let mut p = p0;
    loop
        invariant
            p0 <= p <= s.len(),
            body_end(s@, p as int) == body_end(s@, p0 as int),
        decreases s.len() - p,
    {
        let e = scan(s, p, CharClass::LineChar);
        if e >= s.len() || e + 1 >= s.len() {
            return Ok((e, None));
        }
        if s[e + 1] != '\n' {
            p = e + 1;
        } else {
            let nl = scan(s, e, CharClass::Newline);
            if nl >= s.len() {
                return Ok((e, None));
            }
            if e + 2 < s.len() && s[e + 2] == '\n' {
                return Err(Mismatch { offset: e + 2, expected: two_rules(Rule::Body, Rule::Footer) });
            }
            if footer_start_exec(s, e + 2) {
                return Ok((e, Some(e + 2)));
            }
            p = e + 2;
        }
    }
}

/// A header, as the engine reads it.
pub struct Header {
    pub commit_type: String,
    pub scope: Option<String>,
    pub breaking: bool,
    pub description: String,
    pub end: usize,
}

impl View for Header {
    type V = HeaderView;

    open spec fn view(&self) -> HeaderView {
        HeaderView {
            commit_type: self.commit_type@,
            scope: match self.scope {
                Some(x) => Some(x@),
                None => None,
            },
            breaking: self.breaking,
            description: self.description@,
            end: self.end as int,
        }
    }
}

/// The rules expected where a header's separator is missing (see `separator_expected`).
pub fn separator_expected_exec(has_scope: bool, bang: bool) -> (r: Vec<Rule>)
    ensures
        r@ == separator_expected(has_scope, bang),
{
    if bang {
        one_rule(Rule::ColonSeparator)
    } else if has_scope {
        two_rules(Rule::BreakingChangeIndicator, Rule::ColonSeparator)
    } else {
        {
        let mut v = two_rules(Rule::Scope, Rule::BreakingChangeIndicator);
        v.push(Rule::ColonSeparator);
        assert(v@ =~= separator_expected(has_scope, bang));
        v
    }
    }
}

/// The header at the start of `s` (see `header`).
pub fn header_exec(s: &Vec<char>, text: &str) -> (r: Result<Header, Mismatch>)
    requires
        s@ == text@,
    ensures
        match r {
            Ok(h) => header(s@) == Ok::<HeaderView, Failure>(h@) && h.end <= s.len(),
            Err(m) => header(s@) == Err::<HeaderView, Failure>(m@) && m.offset <= s.len(),
        },
{
    let t = scan(s, 0, CharClass::Alpha);
    if t == 0 {
        return Err(Mismatch { offset: 0, expected: one_rule(Rule::CommitType) });
    }
    let has_scope = t < s.len() && s[t] == '(';
    let mut p = t;
    let mut scope: Option<String> = None;
    if has_scope {
        let k = scan(s, t + 1, CharClass::ScopeChar);
        if k == t + 1 {
            return Err(Mismatch { offset: t + 1, expected: one_rule(Rule::ScopeToken) });
        }
        if !(k < s.len() && s[k] == ')') {
            return Err(Mismatch { offset: k, expected: one_rule(Rule::Scope) });
        }
        scope = Some(String::from_str(text.substring_char(t + 1, k)));
        p = k + 1;
    }
    let bang = p < s.len() && s[p] == '!';
    let q = if bang {
        p + 1
    } else {
        p
    };
    if !(q < s.len() && q + 1 < s.len() && s[q] == ':' && s[q + 1] == ' ') {
        return Err(Mismatch { offset: q, expected: separator_expected_exec(has_scope, bang) });
    }
    let d = scan(s, q + 2, CharClass::LineChar);
    if d == q + 2 {
        return Err(Mismatch { offset: q + 2, expected: one_rule(Rule::Description) });
    }
    let commit_type = String::from_str(text.substring_char(0, t));
    let description = String::from_str(text.substring_char(q + 2, d));
    Ok(Header { commit_type, scope, breaking: bang, description, end: d })
}

/// What follows a header that ends at `d` (see `sections`).
pub fn sections_exec(s: &Vec<char>, text: &str, d: usize) -> (r: Result<
    (Option<String>, Vec<Footer>),
    Mismatch,
>)
    requires
        s@ == text@,
        d <= s.len(),
    ensures
        match r {
            Ok((b, fs)) => sections(s@, d as int) == Ok::<
                (Option<Seq<char>>, Seq<FooterView>),
                Failure,
            >(
                (
                    match b {
                        Some(x) => Some(x@),
                        None => None,
                    },
                    footer_views(fs@),
                ),
            ),
            Err(m) => sections(s@, d as int) == Err::<(Option<Seq<char>>, Seq<FooterView>), Failure>(
                m@,
            ) && m.offset <= s.len(),
        },
{
    proof {
        reveal(sections);
    }
    let nl = scan(s, d, CharClass::Newline);
    if nl >= s.len() {
        let v: Vec<Footer> = Vec::new();
        assert(footer_views(v@) =~= Seq::<FooterView>::empty());
        return Ok((None, v));
    }
    if !(d + 1 < s.len() && s[d + 1] == '\n') {
        return Err(Mismatch { offset: d + 1, expected: one_rule(Rule::Eoi) });
    }
    if d + 2 < s.len() && s[d + 2] == '\n' {
        return Err(Mismatch { offset: d + 2, expected: two_rules(Rule::Body, Rule::Footer) });
    }
    if footer_start_exec(s, d + 2) {
        return match footers_from_exec(s, text, d + 2) {
            Ok(fs) => Ok((None, fs)),
            Err(m) => Err(m),
        };
    }
    match body_end_exec(s, d + 2) {
        Err(m) => Err(m),
        Ok((e, None)) => {
            let v: Vec<Footer> = Vec::new();
            assert(footer_views(v@) =~= Seq::<FooterView>::empty());
            Ok((Some(String::from_str(text.substring_char(d + 2, e))), v))
        },
        Ok((e, Some(q))) => match footers_from_exec(s, text, q) {
            Ok(fs) => Ok((Some(String::from_str(text.substring_char(d + 2, e))), fs)),
            Err(m) => Err(m),
        },
    }
}

} // verus!

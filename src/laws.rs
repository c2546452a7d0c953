//! Laws of the parser, stated over the grammar's spec functions and proved.
use vstd::prelude::*;
use crate::conventional_commit::{
    any_breaking, canonical_kinds, commit_type_of, header_text, is_breaking_token, keyword,
    lookup_from, render, CommitTypeView, CommitView, FooterView,
};
use crate::conventional_commit::{
    blank_line, breaking_change_spaced, footer_text, footers_text, separator_text, Separator,
};
use crate::grammar::{
    body_end, commit_spec, footer_at, footer_spec, footer_start, header, in_class,
    is_ascii_alnum, is_ascii_alpha,
    lemma_span_end, occurs_at, sections, sep_at, span_end, token_end, words_end, CharClass,
    footers_from, footers_spec, Failure, HeaderView,
};
use crate::text::{ascii_lower, is_ws, lower_char, trim, trim_end, trim_start};

verus! {

/// A run of class `k` from `i` ends at `j` when every character before `j` is of the class
/// and the one at `j`, if any, is not.
proof fn lemma_span_exact(s: Seq<char>, i: int, j: int, k: CharClass)
    requires
        0 <= i <= j <= s.len(),
        forall|m: int| i <= m < j ==> in_class(k, #[trigger] s[m]),
        j == s.len() || !in_class(k, s[j]),
    ensures
        span_end(s, i, k) == j,
    decreases j - i,
{
    if i < j {
        lemma_span_exact(s, i + 1, j, k);
    }
}

pub open spec fn scope_text(scope: Option<Seq<char>>) -> Seq<char> {
    match scope {
        Some(n) => seq!['('] + n + seq![')'],
        None => Seq::empty(),
    }
}

pub open spec fn bang_text(bang: bool) -> Seq<char> {
    if bang {
        seq!['!']
    } else {
        Seq::empty()
    }
}

/// The header line `type[(scope)][!]: description`.
pub open spec fn header_line(t: Seq<char>, scope: Option<Seq<char>>, bang: bool, d: Seq<char>) -> Seq<
    char,
> {
    t + scope_text(scope) + bang_text(bang) + seq![':', ' '] + d
}

pub open spec fn all_alpha(t: Seq<char>) -> bool {
    forall|m: int| 0 <= m < t.len() ==> is_ascii_alpha(#[trigger] t[m])
}

pub open spec fn valid_scope(scope: Option<Seq<char>>) -> bool {
    match scope {
        Some(n) => n.len() > 0 && forall|m: int|
            0 <= m < n.len() ==> #[trigger] n[m] != '(' && n[m] != ')',
        None => true,
    }
}

pub open spec fn one_line(d: Seq<char>) -> bool {
    forall|m: int| 0 <= m < d.len() ==> #[trigger] d[m] != '\n'
}

/// A header line, followed by nothing or by a new line, parses to its parts.
proof fn lemma_header_parse(
    t: Seq<char>,
    scope: Option<Seq<char>>,
    bang: bool,
    d: Seq<char>,
    rest: Seq<char>,
)
    requires
        t.len() > 0,
        all_alpha(t),
        valid_scope(scope),
        d.len() > 0,
        one_line(d),
        rest.len() == 0 || rest[0] == '\n',
    ensures
        header(header_line(t, scope, bang, d) + rest) == Ok::<HeaderView, Failure>(
            HeaderView {
                commit_type: t,
                scope,
                breaking: bang,
                description: d,
                end: header_line(t, scope, bang, d).len() as int,
            },
        ),
{
    let line = header_line(t, scope, bang, d);
    let s = line + rest;
    let tl = t.len() as int;
    let sl = scope_text(scope).len() as int;
    let p = tl + sl;
    let q = p + bang_text(bang).len();
    let e = q + 2 + d.len();
    assert(line.len() == e);
    assert forall|m: int| 0 <= m < tl implies in_class(CharClass::Alpha, #[trigger] s[m]) by {
        assert(s[m] == t[m]);
    }
    assert(s[p] == if bang {
        '!'
    } else {
        ':'
    });
    if let Some(n) = scope {
        assert(s[tl] == '(');
        assert forall|m: int| tl + 1 <= m < tl + 1 + n.len() implies in_class(
            CharClass::ScopeChar,
            #[trigger] s[m],
        ) by {
            assert(s[m] == n[m - tl - 1]);
        }
        assert(s[tl + 1 + n.len()] == ')');
        lemma_span_exact(s, tl + 1, tl + 1 + n.len(), CharClass::ScopeChar);
        assert(s.subrange(tl + 1, tl + 1 + n.len()) =~= n);
    }
    lemma_span_exact(s, 0, tl, CharClass::Alpha);
    assert(s[q] == ':');
    assert(s[q + 1] == ' ');
    assert forall|m: int| q + 2 <= m < e implies in_class(CharClass::LineChar, #[trigger] s[m]) by {
        assert(s[m] == d[m - q - 2]);
    }
    lemma_span_exact(s, q + 2, e, CharClass::LineChar);
    assert(s.subrange(0, tl) =~= t);
    assert(s.subrange(q + 2, e) =~= d);
}

/// Any header of the shape `type(scope)!: description`, alone, parses to that type, that
/// scope and that description, and the commit is breaking.
pub proof fn law_scoped_breaking_header(t: Seq<char>, scope: Seq<char>, d: Seq<char>)
    requires
        t.len() > 0,
        all_alpha(t),
        valid_scope(Some(scope)),
        d.len() > 0,
        one_line(d),
    ensures
        commit_spec(header_line(t, Some(scope), true, d)) == Ok::<CommitView, Failure>(
            CommitView {
                commit_type: commit_type_of(t),
                scope: Some(scope),
                description: d,
                body: None,
                footers: Seq::empty(),
                is_breaking_change: true,
            },
        ),
{
    reveal(sections);
    reveal(commit_spec);
    let s = header_line(t, Some(scope), true, d);
    lemma_header_parse(t, Some(scope), true, d, Seq::empty());
    assert(s + Seq::<char>::empty() =~= s);
    assert(span_end(s, s.len() as int, CharClass::Newline) == s.len());
}

/// A breaking-change footer makes the commit breaking, whatever its header says.
pub proof fn law_breaking_footer(s: Seq<char>, i: int)
    requires
        commit_spec(s) is Ok,
        0 <= i < commit_spec(s)->Ok_0.footers.len(),
        is_breaking_token(commit_spec(s)->Ok_0.footers[i].token),
    ensures
        commit_spec(s)->Ok_0.is_breaking_change,
{
    reveal(sections);
    reveal(commit_spec);
    let c = commit_spec(s)->Ok_0;
    assert(any_breaking(c.footers));
}

proof fn lemma_body_end(s: Seq<char>, p: int)
    requires
        0 <= p <= s.len(),
    ensures
        body_end(s, p) matches Ok((e, _)) ==> p <= e <= s.len(),
    decreases s.len() - p,
{
    lemma_span_end(s, p, CharClass::LineChar);
    let e = span_end(s, p, CharClass::LineChar);
    if e + 1 >= s.len() {
    } else if s[e + 1] != '\n' {
        lemma_body_end(s, e + 1);
    } else if span_end(s, e, CharClass::Newline) >= s.len() {
    } else if e + 2 < s.len() && s[e + 2] == '\n' {
    } else if footer_start(s, e + 2) {
    } else {
        lemma_body_end(s, e + 2);
    }
}

/// The body is the text of the message verbatim, from after the blank line that follows
/// the header: its paragraphs keep the blank lines between them.
pub proof fn law_body_verbatim(s: Seq<char>)
    requires
        commit_spec(s) is Ok,
        commit_spec(s)->Ok_0.body is Some,
    ensures
        ({
            let start = header(s)->Ok_0.end + 2;
            let b = commit_spec(s)->Ok_0.body->Some_0;
            start + b.len() <= s.len() && s.subrange(start, start + b.len()) == b
        }),
{
    reveal(sections);
    reveal(commit_spec);
    let h = header(s)->Ok_0;
    lemma_header_facts(s);
    let d = h.end;
    lemma_span_end(s, d, CharClass::Newline);
    if d < s.len() && d + 2 >= s.len() {
        lemma_span_exact(s, d, s.len() as int, CharClass::Newline);
    }
    lemma_body_end(s, d + 2);
}

proof fn lemma_lower_char(c: char)
    ensures
        is_ascii_alpha(c) ==> is_ascii_alpha(lower_char(c)),
        lower_char(lower_char(c)) == lower_char(c),
{
    if 'A' <= c && c <= 'Z' {
        let u = c as u32;
        assert(65 <= u <= 90);
        let l = ((u + 32) as u32) as char;
        assert(l as u32 == u + 32);
        assert('a' <= l && l <= 'z');
    }
}

/// Folding to lower case twice is folding once; letters stay letters.
proof fn lemma_ascii_lower(t: Seq<char>)
    ensures
        ascii_lower(ascii_lower(t)) == ascii_lower(t),
        all_alpha(t) ==> all_alpha(ascii_lower(t)),
        ascii_lower(t).len() == t.len(),
{
    assert forall|m: int| 0 <= m < t.len() implies #[trigger] ascii_lower(ascii_lower(t))[m]
        == ascii_lower(t)[m] && (is_ascii_alpha(t[m]) ==> is_ascii_alpha(ascii_lower(t)[m])) by {
        lemma_lower_char(t[m]);
    }
    assert(ascii_lower(ascii_lower(t)) =~= ascii_lower(t));
}

/// The keyword of a looked-up type is the text it was looked up by.
proof fn lemma_lookup_keyword(t: Seq<char>, i: int)
    ensures
        keyword(lookup_from(t, i)) == t,
    decreases canonical_kinds().len() - i,
{
    if 0 <= i < canonical_kinds().len() && keyword(canonical_kinds()[i]) != t {
        lemma_lookup_keyword(t, i + 1);
    }
}

/// A commit type read from text renders as that text in lower case, and reads back as
/// the same type.
proof fn lemma_type_round_trip(raw: Seq<char>)
    ensures
        keyword(commit_type_of(raw)) == ascii_lower(raw),
        commit_type_of(keyword(commit_type_of(raw))) == commit_type_of(raw),
{
    lemma_lookup_keyword(ascii_lower(raw), 0);
    lemma_ascii_lower(raw);
}

proof fn lemma_header_facts(s: Seq<char>)
    requires
        header(s) is Ok,
    ensures
        header(s)->Ok_0.commit_type.len() > 0,
        all_alpha(header(s)->Ok_0.commit_type),
        valid_scope(header(s)->Ok_0.scope),
        header(s)->Ok_0.description.len() > 0,
        one_line(header(s)->Ok_0.description),
        0 <= header(s)->Ok_0.end <= s.len(),
        header(s)->Ok_0.end == s.len() || s[header(s)->Ok_0.end] == '\n',
{
    let h = header(s)->Ok_0;
    lemma_span_end(s, 0, CharClass::Alpha);
    let t = span_end(s, 0, CharClass::Alpha);
    assert forall|m: int| 0 <= m < h.commit_type.len() implies is_ascii_alpha(
        #[trigger] h.commit_type[m],
    ) by {
        assert(h.commit_type[m] == s[m]);
        assert(in_class(CharClass::Alpha, s[m]));
    }
    let has_scope = t < s.len() && s[t] == '(';
    if has_scope {
        lemma_span_end(s, t + 1, CharClass::ScopeChar);
        let k = span_end(s, t + 1, CharClass::ScopeChar);
        let n = h.scope->Some_0;
        assert forall|m: int| 0 <= m < n.len() implies #[trigger] n[m] != '(' && n[m] != ')' by {
            assert(n[m] == s[t + 1 + m]);
            assert(in_class(CharClass::ScopeChar, s[t + 1 + m]));
        }
    }
    let p = if has_scope {
        span_end(s, t + 1, CharClass::ScopeChar) + 1
    } else {
        t
    };
    let bang = p < s.len() && s[p] == '!';
    let q = if bang {
        p + 1
    } else {
        p
    };
    lemma_span_end(s, q + 2, CharClass::LineChar);
    let de = span_end(s, q + 2, CharClass::LineChar);
    assert forall|m: int| 0 <= m < h.description.len() implies #[trigger] h.description[m]
        != '\n' by {
        assert(h.description[m] == s[q + 2 + m]);
        assert(in_class(CharClass::LineChar, s[q + 2 + m]));
    }
}

// ------------------------------------------------------------------ agreement
//
// `s` from `pp` and `r` from `qq` hold the same `len` characters; after them `s` holds only
// line feeds and `r` ends. Scans that stop at a line feed then stop at corresponding places.

pub open spec fn agree(s: Seq<char>, pp: int, r: Seq<char>, qq: int, len: int) -> bool {
    &&& 0 <= pp
    &&& 0 <= qq
    &&& 0 <= len
    &&& pp + len <= s.len()
    &&& r.len() == qq + len
    &&& forall|i: int| 0 <= i < len ==> #[trigger] s[pp + i] == r[qq + i]
    &&& forall|j: int| pp + len <= j < s.len() ==> #[trigger] s[j] == '\n'
}

proof fn lemma_agree_span(s: Seq<char>, pp: int, r: Seq<char>, qq: int, len: int, p: int, k: CharClass)
    requires
        agree(s, pp, r, qq, len),
        pp <= p <= pp + len,
        !in_class(k, '\n'),
    ensures
        span_end(r, p - pp + qq, k) - (p - pp + qq) == span_end(s, p, k) - p,
        span_end(s, p, k) <= pp + len,
    decreases pp + len - p,
{
    let q = p - pp + qq;
    if p < pp + len {
        assert(s[pp + (p - pp)] == r[qq + (p - pp)]);
        if in_class(k, s[p]) {
            lemma_agree_span(s, pp, r, qq, len, p + 1, k);
        }
    } else if p < s.len() {
        assert(s[p] == '\n');
    }
}

proof fn lemma_agree_words(s: Seq<char>, pp: int, r: Seq<char>, qq: int, len: int, p: int)
    requires
        agree(s, pp, r, qq, len),
        pp <= p <= pp + len,
    ensures
        words_end(r, p - pp + qq) - (p - pp + qq) == words_end(s, p) - p,
        words_end(s, p) <= pp + len,
    decreases pp + len - p,
{
    let q = p - pp + qq;
    lemma_agree_span(s, pp, r, qq, len, p, CharClass::Alnum);
    lemma_span_end(s, p, CharClass::Alnum);
    let w = span_end(s, p, CharClass::Alnum);
    let wr = span_end(r, q, CharClass::Alnum);
    if w < pp + len {
        assert(s[pp + (w - pp)] == r[qq + (w - pp)]);
        if w + 1 < pp + len {
            assert(s[pp + (w + 1 - pp)] == r[qq + (w + 1 - pp)]);
        } else if w + 1 < s.len() {
            assert(s[w + 1] == '\n');
        }
        if p < w && w + 1 < s.len() && s[w] == '-' && is_ascii_alnum(s[w + 1]) {
            lemma_agree_words(s, pp, r, qq, len, w + 1);
        }
    } else if w < s.len() {
        assert(s[w] == '\n');
    }
}

proof fn lemma_agree_sep(s: Seq<char>, pp: int, r: Seq<char>, qq: int, len: int, t: int)
    requires
        agree(s, pp, r, qq, len),
        pp <= t <= pp + len,
        sep_at(r, t - pp + qq) is Some,
    ensures
        sep_at(s, t) == sep_at(r, t - pp + qq),
{
    assert(s[pp + (t - pp)] == r[qq + (t - pp)]);
    assert(s[pp + (t + 1 - pp)] == r[qq + (t + 1 - pp)]);
}

/// A footer that starts in `r` starts at the corresponding place of `s`.
#[verifier::spinoff_prover]
proof fn lemma_agree_footer_start(s: Seq<char>, pp: int, r: Seq<char>, qq: int, len: int, p: int)
    requires
        agree(s, pp, r, qq, len),
        pp <= p <= pp + len,
        footer_start(r, p - pp + qq),
    ensures
        footer_start(s, p),
{
    let q = p - pp + qq;
    let bc = breaking_change_spaced();
    lemma_agree_words(s, pp, r, qq, len, p);
    if occurs_at(s, p, bc) {
        if p + 15 > pp + len {
            let m = pp + len - p;
            assert(s[p + m] == s.subrange(p, p + 15)[m]);
            assert(s[pp + len] == '\n');
        }
        assert forall|m: int| 0 <= m < 15 implies r.subrange(q, q + 15)[m] == bc[m] by {
            assert(s[pp + (p - pp + m)] == r[qq + (p - pp + m)]);
            assert(s.subrange(p, p + 15)[m] == s[p + m]);
        }
        assert(r.subrange(q, q + 15) =~= bc);
        assert(occurs_at(r, q, bc));
    }
    if occurs_at(r, q, bc) && sep_at(r, q + 15) is Some {
        assert(p + 15 <= pp + len);
        lemma_agree_sep(s, pp, r, qq, len, p + 15);
        assert forall|m: int| 0 <= m < 15 implies s.subrange(p, p + 15)[m] == bc[m] by {
            assert(s[pp + (p - pp + m)] == r[qq + (p - pp + m)]);
            assert(r.subrange(q, q + 15)[m] == r[q + m]);
        }
        assert(s.subrange(p, p + 15) =~= bc);
    } else {
        if occurs_at(r, q, bc) {
            assert forall|m: int| 0 <= m < 8 implies in_class(CharClass::Alnum, #[trigger] r[q + m]) by {
                assert(r.subrange(q, q + 15)[m] == r[q + m]);
            }
            assert(r.subrange(q, q + 15)[8] == r[q + 8]);
            lemma_span_exact(r, q, q + 8, CharClass::Alnum);
            assert(words_end(r, q) == q + 8);
            assert(sep_at(r, q + 8) is None);
            assert(false);
        }
        assert(token_end(r, q) == words_end(r, q));
        let t = words_end(s, p);
        assert(token_end(s, p) == t);
        lemma_agree_sep(s, pp, r, qq, len, t);
    }
}

proof fn lemma_body_tail(s: Seq<char>, p: int)
    requires
        0 <= p < s.len(),
        s[p] != '\n',
        body_end(s, p) matches Ok((_, x)) && x is None,
    ensures
        ({
            let e = body_end(s, p)->Ok_0.0;
            &&& p < e <= s.len()
            &&& s[e - 1] != '\n'
            &&& forall|j: int| e <= j < s.len() ==> #[trigger] s[j] == '\n'
        }),
    decreases s.len() - p,
{
    lemma_span_end(s, p, CharClass::LineChar);
    let e = span_end(s, p, CharClass::LineChar);
    assert(e > p);
    if e + 1 >= s.len() {
    } else if s[e + 1] != '\n' {
        lemma_body_tail(s, e + 1);
    } else if span_end(s, e, CharClass::Newline) >= s.len() {
        lemma_span_end(s, e, CharClass::Newline);
    } else if e + 2 < s.len() && s[e + 2] == '\n' {
    } else if footer_start(s, e + 2) {
    } else {
        lemma_span_end(s, e, CharClass::Newline);
        assert(e + 2 < s.len());
        lemma_body_tail(s, e + 2);
    }
}

/// The body scan of `s` ends where its text ends, so the scan of `r`, which holds the
/// same text and nothing after, ends at the corresponding place.
proof fn lemma_agree_body(s: Seq<char>, pp: int, r: Seq<char>, qq: int, len: int, p: int)
    requires
        agree(s, pp, r, qq, len),
        pp <= p < pp + len,
        s[pp + len - 1] != '\n',
        body_end(s, p) == Ok::<(int, Option<int>), Failure>((pp + len, None)),
    ensures
        body_end(r, p - pp + qq) == Ok::<(int, Option<int>), Failure>((r.len() as int, None)),
    decreases pp + len - p,
{
    let q = p - pp + qq;
    lemma_agree_span(s, pp, r, qq, len, p, CharClass::LineChar);
    lemma_span_end(s, p, CharClass::LineChar);
    lemma_span_end(r, q, CharClass::LineChar);
    let e = span_end(s, p, CharClass::LineChar);
    let er = span_end(r, q, CharClass::LineChar);
    if e == pp + len {
        assert(er == r.len());
    } else {
        assert(e < pp + len);
        assert(s[e] == '\n');
        assert(s[pp + (e - pp)] == r[qq + (e - pp)]);
        if e + 1 >= s.len() {
            assert(false);
        } else if s[e + 1] != '\n' {
            assert(e + 1 < pp + len);
            assert(s[pp + (e + 1 - pp)] == r[qq + (e + 1 - pp)]);
            lemma_agree_body(s, pp, r, qq, len, e + 1);
        } else if span_end(s, e, CharClass::Newline) >= s.len() {
            assert(false);
        } else if e + 2 < s.len() && s[e + 2] == '\n' {
        } else if footer_start(s, e + 2) {
        } else {
            assert(e + 1 < pp + len);
            assert(s[pp + (e + 1 - pp)] == r[qq + (e + 1 - pp)]);
            assert(e + 2 < pp + len);
            assert(s[pp + (e + 2 - pp)] == r[qq + (e + 2 - pp)]);
            lemma_span_end(r, er, CharClass::Newline);
            assert(span_end(r, er, CharClass::Newline) < r.len()) by {
                if span_end(r, er, CharClass::Newline) > er + 2 {
                    lemma_span_end(r, er, CharClass::Newline);
                    assert(in_class(CharClass::Newline, r[er + 2]));
                }
            }
            if footer_start(r, er + 2) {
                lemma_agree_footer_start(s, pp, r, qq, len, e + 2);
            }
            lemma_agree_body(s, pp, r, qq, len, e + 2);
        }
    }
}

/// What a body without footers after the header line that ends at `d` tells of `s`.
proof fn lemma_sections_body(s: Seq<char>, d: int, b: Seq<char>)
    requires
        0 <= d <= s.len(),
        d == s.len() || s[d] == '\n',
        sections(s, d) == Ok::<(Option<Seq<char>>, Seq<FooterView>), Failure>(
            (Some(b), Seq::empty()),
        ),
    ensures
        d + 2 < s.len(),
        s[d + 1] == '\n',
        s[d + 2] != '\n',
        !footer_start(s, d + 2),
        body_end(s, d + 2) == Ok::<(int, Option<int>), Failure>((d + 2 + b.len(), None)),
        b == s.subrange(d + 2, d + 2 + b.len()),
{
    reveal(sections);
    lemma_span_end(s, d, CharClass::Newline);
    let n = span_end(s, d, CharClass::Newline);
    if n >= s.len() {
        assert(sections(s, d) == Ok::<(Option<Seq<char>>, Seq<FooterView>), Failure>(
            (None, Seq::empty()),
        ));
        assert(false);
    }
    assert(d < s.len());
    if !(d + 1 < s.len() && s[d + 1] == '\n') {
        assert(sections(s, d) is Err);
        assert(false);
    }
    if d + 2 >= s.len() {
        lemma_span_exact(s, d, s.len() as int, CharClass::Newline);
        assert(false);
    }
    if s[d + 2] == '\n' {
        assert(sections(s, d) is Err);
        assert(false);
    }
    if footer_start(s, d + 2) {
        assert(sections(s, d)->Ok_0.0 is None);
        assert(false);
    }
    lemma_body_end(s, d + 2);
    match body_end(s, d + 2) {
        Ok((e, None)) => {
            assert(b == s.subrange(d + 2, e));
        },
        Ok((e, Some(q))) => {
            match crate::grammar::footers_from(s, q) {
                Ok(fs) => {
                    assert(fs.len() > 0);
                    assert(false);
                },
                Err(x) => {},
            }
        },
        Err(x) => {},
    }
}

/// Where `s` holds a body and no footers after the header line that ends at `d`, the
/// same body after any other header line reads back the same.
#[verifier::rlimit(40)]
#[verifier::spinoff_prover]
proof fn lemma_sections_of_rendered(s: Seq<char>, d: int, line: Seq<char>, b: Seq<char>)
    requires
        0 <= d <= s.len(),
        d == s.len() || s[d] == '\n',
        sections(s, d) == Ok::<(Option<Seq<char>>, Seq<FooterView>), Failure>(
            (Some(b), Seq::empty()),
        ),
    ensures
        sections(line + (seq!['\n', '\n'] + b), line.len() as int) == Ok::<
            (Option<Seq<char>>, Seq<FooterView>),
            Failure,
        >((Some(b), Seq::empty())),
{
    reveal(sections);
    let r = line + (seq!['\n', '\n'] + b);
    let hl = line.len() as int;
    lemma_sections_body(s, d, b);
    let e = d + 2 + b.len();
    lemma_body_tail(s, d + 2);
    let len = b.len() as int;
    assert forall|i: int| 0 <= i < len implies #[trigger] s[d + 2 + i] == r[hl + 2 + i] by {
        assert(b[i] == s[d + 2 + i]);
        assert(r[hl + 2 + i] == b[i]);
    }
    assert(agree(s, d + 2, r, hl + 2, len));
    assert(r[hl] == '\n');
    assert(r[hl + 1] == '\n');
    assert(r[hl + 2] == s[d + 2]);
    lemma_span_exact(r, hl, hl + 2, CharClass::Newline);
    if footer_start(r, hl + 2) {
        lemma_agree_footer_start(s, d + 2, r, hl + 2, len, d + 2);
    }
    assert(s[d + 2 + len - 1] != '\n');
    lemma_agree_body(s, d + 2, r, hl + 2, len, d + 2);
    assert(r.subrange(hl + 2, r.len() as int) =~= b);
}

/// A commit without footers renders to text that parses back to the same commit.
#[verifier::spinoff_prover]
pub proof fn law_round_trip_without_footers(s: Seq<char>)
    requires
        commit_spec(s) is Ok,
        commit_spec(s)->Ok_0.footers.len() == 0,
    ensures
        commit_spec(render(commit_spec(s)->Ok_0)) == commit_spec(s),
{
    reveal(sections);
    reveal(commit_spec);
    let c = commit_spec(s)->Ok_0;
    let h = header(s)->Ok_0;
    let d = h.end;
    lemma_header_facts(s);
    lemma_type_round_trip(h.commit_type);
    lemma_ascii_lower(h.commit_type);
    let t = keyword(c.commit_type);
    let line = header_line(t, c.scope, c.is_breaking_change, c.description);
    let hl = line.len() as int;
    assert(header_text(c) =~= line);
    assert(c.footers =~= Seq::<FooterView>::empty());
    assert(!any_breaking(Seq::<FooterView>::empty()));
    match c.body {
        None => {
            assert(render(c) =~= line);
            lemma_header_parse(t, c.scope, c.is_breaking_change, c.description, Seq::empty());
            assert(line + Seq::<char>::empty() =~= line);
            assert(span_end(line, hl, CharClass::Newline) == hl);
        },
        Some(b) => {
            let rest = seq!['\n', '\n'] + b;
            assert(render(c) =~= line + rest);
            lemma_header_parse(t, c.scope, c.is_breaking_change, c.description, rest);
            lemma_sections_of_rendered(s, d, line, b);
        },
    }
}

// ------------------------------------------------------------------ footers

proof fn lemma_trim_start(x: Seq<char>)
    ensures
        trim_start(x).len() == 0 || !is_ws(trim_start(x)[0]),
        one_line(x) ==> one_line(trim_start(x)),
    decreases x.len(),
{
    if x.len() > 0 && is_ws(x[0]) {
        assert forall|m: int| 0 <= m < x.drop_first().len() implies #[trigger] x.drop_first()[m]
            == x[m + 1] by {}
        lemma_trim_start(x.drop_first());
    }
}

proof fn lemma_trim_end(x: Seq<char>)
    ensures
        trim_end(x).len() == 0 || !is_ws(trim_end(x).last()),
        trim_end(x).len() <= x.len(),
        trim_end(x) == x.subrange(0, trim_end(x).len() as int),
        one_line(x) ==> one_line(trim_end(x)),
    decreases x.len(),
{
    if x.len() > 0 && is_ws(x.last()) {
        lemma_trim_end(x.drop_last());
        assert(x.drop_last().subrange(0, trim_end(x).len() as int) =~= x.subrange(
            0,
            trim_end(x).len() as int,
        ));
    } else {
        assert(x.subrange(0, x.len() as int) =~= x);
    }
}

/// Trimming twice is trimming once; a line stays a line.
proof fn lemma_trim(x: Seq<char>)
    ensures
        trim(trim(x)) == trim(x),
        one_line(x) ==> one_line(trim(x)),
{
    let y = trim_start(x);
    let z = trim_end(y);
    lemma_trim_start(x);
    lemma_trim_end(y);
    if z.len() > 0 {
        assert(z[0] == y[0]);
        assert(trim_start(z) == z);
        assert(trim_end(z) == z);
    } else {
        assert(trim_start(z) == z);
        assert(trim_end(z) == z);
    }
}

/// Two texts that hold the same `len` characters from `p` and `q`.
pub open spec fn window(x: Seq<char>, p: int, y: Seq<char>, q: int, len: int) -> bool {
    &&& 0 <= p
    &&& 0 <= q
    &&& p + len <= x.len()
    &&& q + len <= y.len()
    &&& forall|i: int| 0 <= i < len ==> #[trigger] x[p + i] == y[q + i]
}

proof fn lemma_window_span(x: Seq<char>, p0: int, y: Seq<char>, q0: int, len: int, p: int, k: CharClass)
    requires
        window(x, p0, y, q0, len),
        p0 <= p,
        span_end(x, p, k) < p0 + len,
    ensures
        span_end(y, p - p0 + q0, k) - (p - p0 + q0) == span_end(x, p, k) - p,
    decreases p0 + len - p,
{
    if p <= x.len() {
        lemma_span_end(x, p, k);
    }
    if p < p0 + len {
        assert(x[p0 + (p - p0)] == y[q0 + (p - p0)]);
        if in_class(k, x[p]) {
            lemma_window_span(x, p0, y, q0, len, p + 1, k);
        }
    }
}

proof fn lemma_window_words(x: Seq<char>, p0: int, y: Seq<char>, q0: int, len: int, p: int)
    requires
        window(x, p0, y, q0, len),
        p0 <= p <= x.len(),
        words_end(x, p) + 1 < p0 + len,
    ensures
        words_end(y, p - p0 + q0) - (p - p0 + q0) == words_end(x, p) - p,
    decreases p0 + len - p,
{
    let q = p - p0 + q0;
    lemma_span_end(x, p, CharClass::Alnum);
    let w = span_end(x, p, CharClass::Alnum);
    lemma_words_end_ge(x, p);
    if p < w && w + 1 < x.len() && x[w] == '-' && is_ascii_alnum(x[w + 1]) {
        lemma_words_end_ge(x, w + 1);
        lemma_window_span(x, p0, y, q0, len, p, CharClass::Alnum);
        assert(x[p0 + (w - p0)] == y[q0 + (w - p0)]);
        assert(x[p0 + (w + 1 - p0)] == y[q0 + (w + 1 - p0)]);
        lemma_window_words(x, p0, y, q0, len, w + 1);
    } else {
        lemma_window_span(x, p0, y, q0, len, p, CharClass::Alnum);
        assert(x[p0 + (w - p0)] == y[q0 + (w - p0)]);
        if w + 1 < p0 + len {
            assert(x[p0 + (w + 1 - p0)] == y[q0 + (w + 1 - p0)]);
        }
    }
}

proof fn lemma_words_end_ge(x: Seq<char>, p: int)
    requires
        0 <= p <= x.len(),
    ensures
        span_end(x, p, CharClass::Alnum) <= words_end(x, p),
    decreases x.len() - p,
{
    lemma_span_end(x, p, CharClass::Alnum);
    let w = span_end(x, p, CharClass::Alnum);
    if p < w && w + 1 < x.len() && x[w] == '-' && is_ascii_alnum(x[w + 1]) {
        lemma_words_end_ge(x, w + 1);
        lemma_span_end(x, w + 1, CharClass::Alnum);
    }
}

/// A footer of `s` on one line, rendered at `pp` of `r` and followed there by a new line
/// or by nothing, reads back the same.
#[verifier::spinoff_prover]
proof fn lemma_rendered_footer_at(s: Seq<char>, p: int, r: Seq<char>, pp: int)
    requires
        footer_start(s, p),
        footer_at(s, p).0.separator != Separator::ColonWithNewline,
        0 <= pp,
        pp + footer_text(footer_at(s, p).0).len() <= r.len(),
        r.subrange(pp, pp + footer_text(footer_at(s, p).0).len()) == footer_text(footer_at(s, p).0),
        pp + footer_text(footer_at(s, p).0).len() == r.len() || r[pp + footer_text(
            footer_at(s, p).0,
        ).len()] == '\n',
    ensures
        footer_start(r, pp),
        footer_at(r, pp) == (footer_at(s, p).0, pp + footer_text(footer_at(s, p).0).len()),
{
    let f = footer_at(s, p).0;
    crate::grammar::lemma_footer_at(s, p);
    let t = token_end(s, p);
    let tl = t - p;
    let sep = f.separator;
    lemma_span_end(s, t + 2, CharClass::LineChar);
    let e = span_end(s, t + 2, CharClass::LineChar);
    let raw = s.subrange(t + 2, e);
    assert(one_line(raw)) by {
        assert forall|m: int| 0 <= m < raw.len() implies #[trigger] raw[m] != '\n' by {
            assert(raw[m] == s[t + 2 + m]);
            assert(in_class(CharClass::LineChar, s[t + 2 + m]));
        }
    }
    lemma_trim(raw);
    let content = f.content;
    let ft = footer_text(f);
    let end = pp + ft.len();
    let tok = f.token;
    assert(ft == tok + separator_text(sep) + content);
    assert forall|i: int| 0 <= i < tl + 2 implies #[trigger] s[p + i] == r[pp + i] by {
        assert(r[pp + i] == r.subrange(pp, end)[i]);
        if i < tl {
            assert(ft[i] == tok[i]);
            assert(tok[i] == s[p + i]);
        }
    }
    assert(window(s, p, r, pp, tl + 2));
    assert(s[p + tl] == r[pp + tl]);
    assert(s[p + (tl + 1)] == r[pp + (tl + 1)]);
    assert(sep_at(r, pp + tl) == sep_at(s, t));
    let bc = breaking_change_spaced();
    if occurs_at(s, p, bc) && sep_at(s, p + 15) is Some {
        assert(tl == 15);
        assert(r.subrange(pp, pp + 15) =~= s.subrange(p, p + 15));
        assert(occurs_at(r, pp, bc));
        assert(token_end(r, pp) == pp + 15);
    } else {
        assert(t == words_end(s, p));
        if occurs_at(r, pp, bc) && sep_at(r, pp + 15) is Some {
            if tl >= 15 {
                assert(r.subrange(pp, pp + 15) =~= s.subrange(p, p + 15));
                assert(s[p + 15] == r[pp + 15]);
                assert(s[p + 16] == r[pp + 16]);
                assert(false);
            } else {
                assert(r[pp + tl] == r.subrange(pp, pp + 15)[tl]);
                assert(r[pp + tl] == ':' || r[pp + tl] == ' ');
                if tl + 1 < 15 {
                    assert(r[pp + tl + 1] == r.subrange(pp, pp + 15)[tl + 1]);
                }
                assert(false);
            }
        }
        lemma_window_words(s, p, r, pp, tl + 2, p);
        assert(token_end(r, pp) == pp + tl);
    }
    assert forall|m: int| pp + tl + 2 <= m < end implies in_class(
        CharClass::LineChar,
        #[trigger] r[m],
    ) by {
        assert(r[m] == r.subrange(pp, end)[m - pp]);
        assert(ft[m - pp] == content[m - pp - tl - 2]);
    }
    lemma_span_exact(r, pp + tl + 2, end, CharClass::LineChar);
    assert(r.subrange(pp, pp + tl) =~= tok) by {
        assert forall|m: int| 0 <= m < tl implies r.subrange(pp, pp + tl)[m] == tok[m] by {
            assert(r[pp + m] == r.subrange(pp, end)[m]);
        }
    }
    assert(r.subrange(pp + tl + 2, end) =~= content) by {
        assert forall|m: int| 0 <= m < content.len() implies r.subrange(pp + tl + 2, end)[m]
            == content[m] by {
            assert(r[pp + tl + 2 + m] == r.subrange(pp, end)[tl + 2 + m]);
        }
    }
}

/// A footer on one line, rendered as `token<separator>content`, reads back the same.
pub proof fn law_footer_round_trip(s: Seq<char>)
    requires
        footer_spec(s) is Ok,
        footer_spec(s)->Ok_0.separator != Separator::ColonWithNewline,
    ensures
        footer_spec(footer_text(footer_spec(s)->Ok_0)) == footer_spec(s),
{
    let r = footer_text(footer_spec(s)->Ok_0);
    assert(r.subrange(0, r.len() as int) =~= r);
    lemma_rendered_footer_at(s, 0, r, 0);
}

proof fn lemma_footers_text_front(f: FooterView, fs: Seq<FooterView>)
    ensures
        footers_text(seq![f] + fs) == blank_line() + footer_text(f) + footers_text(fs),
    decreases fs.len(),
{
    let g = seq![f] + fs;
    if fs.len() == 0 {
        assert(g =~= seq![f]);
        assert(g.drop_last() =~= Seq::<FooterView>::empty());
        assert(footers_text(g) == footers_text(g.drop_last()) + blank_line() + footer_text(
            g.last(),
        ));
        assert(footers_text(g.drop_last()) =~= Seq::<char>::empty());
        assert(footers_text(fs) =~= Seq::<char>::empty());
        assert(footers_text(g) =~= blank_line() + footer_text(f) + footers_text(fs));
    } else {
        let fd = fs.drop_last();
        assert(g.drop_last() =~= seq![f] + fd);
        assert(g.last() == fs.last());
        lemma_footers_text_front(f, fd);
        let x = footers_text(g);
        assert(x == footers_text(g.drop_last()) + blank_line() + footer_text(g.last()));
        assert(footers_text(fs) == footers_text(fd) + blank_line() + footer_text(fs.last()));
        assert(x =~= blank_line() + footer_text(f) + footers_text(fs));
    }
}

/// Every footer uses a one-line separator.
pub open spec fn one_line_footers(fs: Seq<FooterView>) -> bool {
    forall|i: int| 0 <= i < fs.len() ==> #[trigger] fs[i].separator != Separator::ColonWithNewline
}

/// The footers that `s` holds from `p`, rendered at `pp` of `r` up to its end, read back
/// the same.
#[verifier::spinoff_prover]
proof fn lemma_rendered_footers(s: Seq<char>, p: int, fs: Seq<FooterView>, r: Seq<char>, pp: int)
    requires
        footers_from(s, p) == Ok::<Seq<FooterView>, Failure>(fs),
        one_line_footers(fs),
        0 <= pp <= r.len(),
        fs.len() > 0,
        r.subrange(pp, r.len() as int) == footer_text(fs[0]) + footers_text(fs.drop_first()),
    ensures
        footers_from(r, pp) == Ok::<Seq<FooterView>, Failure>(fs),
    decreases fs.len(),
{
    crate::grammar::lemma_footer_at(s, p);
    let f = footer_at(s, p).0;
    let ks = footer_at(s, p).1;
    lemma_span_end(s, ks, CharClass::Newline);
    let ns = span_end(s, ks, CharClass::Newline);
    assert(fs[0] == f);
    let rest = fs.drop_first();
    let ft = footer_text(f);
    let x = ft + footers_text(rest);
    let fl = ft.len() as int;
    let k = pp + fl;
    assert(r.len() - pp == x.len());
    assert(r.subrange(pp, k) =~= ft) by {
        assert forall|m: int| 0 <= m < ft.len() implies r.subrange(pp, k)[m] == ft[m] by {
            assert(r.subrange(pp, k)[m] == r.subrange(pp, r.len() as int)[m]);
            assert(x[m] == ft[m]);
        }
    }
    if rest.len() == 0 {
        assert(footers_text(rest) =~= Seq::<char>::empty());
        assert(x =~= ft);
        assert(k == r.len());
        lemma_rendered_footer_at(s, p, r, pp);
        assert(ns >= s.len()) by {
            if ns < s.len() {
                assert(footers_from(s, p) is Ok ==> footers_from(s, p)->Ok_0.len() > 1);
            }
        }
        assert(fs =~= seq![f]);
    } else {
        assert(ns < s.len()) by {
            if ns >= s.len() {
                assert(fs.len() == 1);
            }
        }
        let rest_s = footers_from(s, ns)->Ok_0;
        assert(fs == seq![f] + rest_s);
        assert(rest_s =~= rest);
        lemma_footers_text_front(rest[0], rest.drop_first());
        assert(rest =~= seq![rest[0]] + rest.drop_first());
        assert(r[k] == x[fl]);
        assert(r[k] == '\n');
        lemma_rendered_footer_at(s, p, r, pp);
        assert(r[k + 1] == x[fl + 1]);
        crate::grammar::lemma_footer_at(s, ns);
        let g = footer_at(s, ns).0;
        assert(g == rest[0]);
        assert(r[k + 2] == x[fl + 2]);
        assert(x[fl + 2] == footer_text(g)[0]);
        assert(footer_text(g)[0] == g.token[0]);
        assert(g.token[0] == s[ns]);
        lemma_span_exact(r, k, k + 2, CharClass::Newline);
        assert(one_line_footers(rest)) by {
            assert forall|i: int| 0 <= i < rest.len() implies #[trigger] rest[i].separator
                != Separator::ColonWithNewline by {
                assert(rest[i] == fs[i + 1]);
            }
        }
        assert(r.subrange(k + 2, r.len() as int) =~= footer_text(rest[0]) + footers_text(
            rest.drop_first(),
        )) by {
            assert(x =~= ft + (blank_line() + footer_text(rest[0]) + footers_text(
                rest.drop_first(),
            )));
            assert forall|m: int| 0 <= m < r.len() - (k + 2) implies #[trigger] r.subrange(
                k + 2,
                r.len() as int,
            )[m] == x[fl + 2 + m] by {
                assert(r.subrange(k + 2, r.len() as int)[m] == r.subrange(pp, r.len() as int)[fl
                    + 2 + m]);
            }
        }
        lemma_rendered_footers(s, ns, rest, r, k + 2);
    }
}

proof fn lemma_body_before_footers(s: Seq<char>, p: int)
    requires
        0 <= p < s.len(),
        s[p] != '\n',
        body_end(s, p) matches Ok((_, x)) && x is Some,
    ensures
        ({
            let e = body_end(s, p)->Ok_0.0;
            &&& p < e
            &&& e + 2 < s.len()
            &&& s[e - 1] != '\n'
            &&& s[e] == '\n'
            &&& s[e + 1] == '\n'
            &&& s[e + 2] != '\n'
            &&& footer_start(s, e + 2)
            &&& body_end(s, p)->Ok_0.1 == Some(e + 2)
        }),
    decreases s.len() - p,
{
    lemma_span_end(s, p, CharClass::LineChar);
    let e = span_end(s, p, CharClass::LineChar);
    if e + 1 >= s.len() {
    } else if s[e + 1] != '\n' {
        lemma_body_before_footers(s, e + 1);
    } else if span_end(s, e, CharClass::Newline) >= s.len() {
    } else if e + 2 < s.len() && s[e + 2] == '\n' {
    } else if footer_start(s, e + 2) {
        lemma_span_end(s, e, CharClass::Newline);
        if e + 2 >= s.len() {
            lemma_span_exact(s, e, s.len() as int, CharClass::Newline);
        }
    } else {
        lemma_span_end(s, e, CharClass::Newline);
        if e + 2 >= s.len() {
            lemma_span_exact(s, e, s.len() as int, CharClass::Newline);
        }
        lemma_body_before_footers(s, e + 2);
    }
}

proof fn lemma_words_before_newline(x: Seq<char>, p: int, z: int)
    requires
        0 <= p <= z < x.len(),
        x[z] == '\n',
    ensures
        words_end(x, p) <= z,
    decreases x.len() - p,
{
    lemma_span_end(x, p, CharClass::Alnum);
    let w = span_end(x, p, CharClass::Alnum);
    if w > z {
        assert(in_class(CharClass::Alnum, x[z]));
    }
    if p < w && w + 1 < x.len() && x[w] == '-' && is_ascii_alnum(x[w + 1]) {
        lemma_words_before_newline(x, w + 1, z);
    }
}

/// Whether a footer starts at `p` depends only on the text up to the end of its line and
/// one character more.
#[verifier::spinoff_prover]
proof fn lemma_window_footer_start(
    x: Seq<char>,
    p0: int,
    y: Seq<char>,
    q0: int,
    len: int,
    p: int,
    z: int,
)
    requires
        window(x, p0, y, q0, len),
        p0 <= p <= z,
        z + 1 < p0 + len,
        x[z] == '\n',
    ensures
        footer_start(x, p) == footer_start(y, p - p0 + q0),
{
    let q = p - p0 + q0;
    let zq = z - p0 + q0;
    assert(x[p0 + (z - p0)] == y[q0 + (z - p0)]);
    let bc = breaking_change_spaced();
    lemma_words_before_newline(x, p, z);
    lemma_window_words(x, p0, y, q0, len, p);
    let ox = occurs_at(x, p, bc);
    let oy = occurs_at(y, q, bc);
    if p + 15 <= p0 + len {
        assert forall|m: int| 0 <= m < 15 implies #[trigger] x[p + m] == y[q + m] by {
            assert(x[p0 + (p - p0 + m)] == y[q0 + (p - p0 + m)]);
        }
        if ox {
            assert forall|m: int| 0 <= m < 15 implies y.subrange(q, q + 15)[m] == bc[m] by {
                assert(x.subrange(p, p + 15)[m] == x[p + m]);
            }
            assert(y.subrange(q, q + 15) =~= bc);
        }
        if oy {
            assert forall|m: int| 0 <= m < 15 implies x.subrange(p, p + 15)[m] == bc[m] by {
                assert(y.subrange(q, q + 15)[m] == y[q + m]);
                assert(x.subrange(p, p + 15)[m] == x[p + m]);
                assert(x[p + m] == y[q + m]);
            }
            assert(x.subrange(p, p + 15) =~= bc);
        }
    } else {
        if ox {
            assert(x.subrange(p, p + 15)[z - p] == x[z]);
            assert(false);
        }
        if oy {
            assert(y.subrange(q, q + 15)[z - p] == y[zq]);
            assert(false);
        }
    }
    assert(ox == oy);
    assert(ox ==> p + 15 <= z) by {
        if ox && z < p + 15 {
            assert(x.subrange(p, p + 15)[z - p] == x[z]);
        }
    }
    if ox {
        assert(x[p0 + (p + 15 - p0)] == y[q0 + (p + 15 - p0)]);
        assert(x[p0 + (p + 16 - p0)] == y[q0 + (p + 16 - p0)]);
        assert(sep_at(x, p + 15) == sep_at(y, q + 15));
    }
    let t = token_end(x, p);
    crate::grammar::lemma_words_end(x, p);
    assert(token_end(y, q) - q == t - p);
    assert(p <= t <= z);
    assert(x[p0 + (t - p0)] == y[q0 + (t - p0)]);
    assert(x[p0 + (t + 1 - p0)] == y[q0 + (t + 1 - p0)]);
    assert(sep_at(x, t) == sep_at(y, t - p0 + q0));
}

/// The body scan of `s` ends before a blank line and a footer; in `r`, which holds the same
/// body and the same blank line before a footer, it ends at the corresponding place.
#[verifier::spinoff_prover]
proof fn lemma_agree_body_footers(s: Seq<char>, pp: int, r: Seq<char>, qq: int, len: int, p: int)
    requires
        window(s, pp, r, qq, len + 2),
        pp <= p < pp + len,
        s[pp + len - 1] != '\n',
        s[pp + len] == '\n',
        s[pp + len + 1] == '\n',
        qq + len + 2 < r.len(),
        r[qq + len + 2] != '\n',
        footer_start(r, qq + len + 2),
        body_end(s, p) == Ok::<(int, Option<int>), Failure>((pp + len, Some(pp + len + 2))),
    ensures
        body_end(r, p - pp + qq) == Ok::<(int, Option<int>), Failure>(
            (qq + len, Some(qq + len + 2)),
        ),
    decreases pp + len - p,
{
    let q = p - pp + qq;
    lemma_span_end(s, p, CharClass::LineChar);
    let e = span_end(s, p, CharClass::LineChar);
    if e > pp + len {
        assert(in_class(CharClass::LineChar, s[pp + len]));
    }
    lemma_window_span(s, pp, r, qq, len + 2, p, CharClass::LineChar);
    let er = span_end(r, q, CharClass::LineChar);
    assert(er - q == e - p);
    assert(s[pp + (e - pp)] == r[qq + (e - pp)]);
    assert(s[pp + (e + 1 - pp)] == r[qq + (e + 1 - pp)]);
    if s[e + 1] != '\n' {
        assert(e + 1 < pp + len);
        lemma_agree_body_footers(s, pp, r, qq, len, e + 1);
    } else if e == pp + len {
        lemma_span_exact(r, er, er + 2, CharClass::Newline);
    } else {
        assert(e + 1 < pp + len - 1);
        lemma_span_end(s, e, CharClass::Newline);
        assert(s[pp + (e + 2 - pp)] == r[qq + (e + 2 - pp)]);
        assert(s[e + 2] != '\n') by {
            if s[e + 2] == '\n' {
                assert(span_end(s, e, CharClass::Newline) >= s.len() || body_end(s, p) is Err);
            }
        }
        lemma_span_exact(r, er, er + 2, CharClass::Newline);
        lemma_span_exact(s, e, e + 2, CharClass::Newline);
        lemma_span_end(s, e + 2, CharClass::LineChar);
        let z = span_end(s, e + 2, CharClass::LineChar);
        if z > pp + len {
            assert(in_class(CharClass::LineChar, s[pp + len]));
        }
        lemma_window_footer_start(s, pp, r, qq, len + 2, e + 2, z);
        if footer_start(s, e + 2) {
            assert(false);
        }
        lemma_body_end(s, e + 2);
        lemma_agree_body_footers(s, pp, r, qq, len, e + 2);
    }
}

/// What a header line that ends at `d` and is followed by footers tells of `s`.
proof fn lemma_sections_footers(
    s: Seq<char>,
    d: int,
    body: Option<Seq<char>>,
    fs: Seq<FooterView>,
)
    requires
        0 <= d <= s.len(),
        d == s.len() || s[d] == '\n',
        sections(s, d) == Ok::<(Option<Seq<char>>, Seq<FooterView>), Failure>((body, fs)),
        fs.len() > 0,
    ensures
        d + 2 < s.len(),
        s[d + 1] == '\n',
        s[d + 2] != '\n',
        body is None ==> footer_start(s, d + 2) && footers_from(s, d + 2) == Ok::<
            Seq<FooterView>,
            Failure,
        >(fs),
        body matches Some(b) ==> {
            &&& !footer_start(s, d + 2)
            &&& body_end(s, d + 2) == Ok::<(int, Option<int>), Failure>(
                (d + 2 + b.len(), Some(d + 4 + b.len())),
            )
            &&& b == s.subrange(d + 2, d + 2 + b.len())
            &&& footers_from(s, d + 4 + b.len()) == Ok::<Seq<FooterView>, Failure>(fs)
        },
{
    reveal(sections);
    lemma_span_end(s, d, CharClass::Newline);
    let n = span_end(s, d, CharClass::Newline);
    if n >= s.len() {
        assert(sections(s, d) == Ok::<(Option<Seq<char>>, Seq<FooterView>), Failure>(
            (None, Seq::empty()),
        ));
        assert(false);
    }
    assert(d < s.len());
    if !(d + 1 < s.len() && s[d + 1] == '\n') {
        assert(sections(s, d) is Err);
        assert(false);
    }
    if d + 2 >= s.len() {
        lemma_span_exact(s, d, s.len() as int, CharClass::Newline);
        assert(false);
    }
    if s[d + 2] == '\n' {
        assert(sections(s, d) is Err);
        assert(false);
    }
    if !footer_start(s, d + 2) {
        lemma_body_end(s, d + 2);
        match body_end(s, d + 2) {
            Ok((e, None)) => {
                assert(sections(s, d)->Ok_0.1.len() == 0);
                assert(false);
            },
            Ok((e, Some(q))) => {
                lemma_body_before_footers(s, d + 2);
                assert(q == e + 2);
                assert(body == Some(s.subrange(d + 2, e)));
            },
            Err(x) => {
                assert(false);
            },
        }
    }
}

pub open spec fn body_section(body: Option<Seq<char>>) -> Seq<char> {
    match body {
        Some(b) => blank_line() + b,
        None => Seq::empty(),
    }
}

/// Footers of `s` from `p`, rendered at `pp` of `r` up to its end: they read back the same,
/// and the first rendered character is the first character of the footers in `s`.
proof fn lemma_rendered_tail(s: Seq<char>, p: int, fs: Seq<FooterView>, r: Seq<char>, pp: int)
    requires
        footers_from(s, p) == Ok::<Seq<FooterView>, Failure>(fs),
        one_line_footers(fs),
        0 <= pp < r.len(),
        fs.len() > 0,
        r.subrange(pp, r.len() as int) == footer_text(fs[0]) + footers_text(fs.drop_first()),
    ensures
        footers_from(r, pp) == Ok::<Seq<FooterView>, Failure>(fs),
        footer_start(r, pp),
        r[pp] == s[p],
        0 <= p < s.len(),
{
    lemma_rendered_footers(s, p, fs, r, pp);
    crate::grammar::lemma_footer_at(s, p);
    let tail = footer_text(fs[0]) + footers_text(fs.drop_first());
    assert(r[pp] == r.subrange(pp, r.len() as int)[0]);
    assert(tail[0] == fs[0].token[0]);
    assert(fs[0].token[0] == s[p]);
}

/// Where each part stands in `line`, a blank line, `b`, a blank line and `tail`.
proof fn lemma_layout(line: Seq<char>, b: Seq<char>, tail: Seq<char>)
    ensures
        ({
            let r = line + (blank_line() + b + (blank_line() + tail));
            let hl = line.len() as int;
            let bl = b.len() as int;
            &&& r.len() == hl + bl + 4 + tail.len()
            &&& r[hl] == '\n'
            &&& r[hl + 1] == '\n'
            &&& r[hl + bl + 2] == '\n'
            &&& r[hl + bl + 3] == '\n'
            &&& forall|i: int| 0 <= i < bl ==> #[trigger] r[hl + 2 + i] == b[i]
            &&& r.subrange(hl + 2, hl + 2 + bl) == b
            &&& r.subrange(hl + bl + 4, r.len() as int) == tail
        }),
{
    let r = line + (blank_line() + b + (blank_line() + tail));
    let hl = line.len() as int;
    let bl = b.len() as int;
    assert(r.subrange(hl + 2, hl + 2 + bl) =~= b);
    assert(r.subrange(hl + bl + 4, r.len() as int) =~= tail);
}

/// The sections after a header line that ends at `hl`, from what the text holds there.
proof fn lemma_sections_when(r: Seq<char>, hl: int, body: Option<Seq<char>>, fs: Seq<FooterView>)
    requires
        0 <= hl,
        hl + 2 < r.len(),
        r[hl + 1] == '\n',
        r[hl + 2] != '\n',
        span_end(r, hl, CharClass::Newline) < r.len(),
        body is None ==> footer_start(r, hl + 2) && footers_from(r, hl + 2) == Ok::<
            Seq<FooterView>,
            Failure,
        >(fs),
        body matches Some(b) ==> {
            &&& !footer_start(r, hl + 2)
            &&& body_end(r, hl + 2) == Ok::<(int, Option<int>), Failure>(
                (hl + 2 + b.len(), Some(hl + 4 + b.len())),
            )
            &&& r.subrange(hl + 2, hl + 2 + b.len()) == b
            &&& footers_from(r, hl + 4 + b.len()) == Ok::<Seq<FooterView>, Failure>(fs)
        },
    ensures
        sections(r, hl) == Ok::<(Option<Seq<char>>, Seq<FooterView>), Failure>((body, fs)),
{
    reveal(sections);
}

/// Where `s` holds footers right after the header line that ends at `d`, their rendering
/// after any other header line reads back the same.
#[verifier::rlimit(60)]
#[verifier::spinoff_prover]
proof fn lemma_sections_rendered_footers_only(
    s: Seq<char>,
    d: int,
    line: Seq<char>,
    fs: Seq<FooterView>,
)
    requires
        0 <= d <= s.len(),
        d == s.len() || s[d] == '\n',
        d + 2 < s.len(),
        s[d + 2] != '\n',
        footers_from(s, d + 2) == Ok::<Seq<FooterView>, Failure>(fs),
        fs.len() > 0,
        one_line_footers(fs),
    ensures
        sections(line + footers_text(fs), line.len() as int) == Ok::<
            (Option<Seq<char>>, Seq<FooterView>),
            Failure,
        >((None, fs)),
{
    let hl = line.len() as int;
    assert(fs =~= seq![fs[0]] + fs.drop_first());
    lemma_footers_text_front(fs[0], fs.drop_first());
    let tail = footer_text(fs[0]) + footers_text(fs.drop_first());
    let r = line + footers_text(fs);
    assert(r =~= line + (blank_line() + tail));
    assert(r.subrange(hl + 2, r.len() as int) =~= tail);
    lemma_rendered_footers(s, d + 2, fs, r, hl + 2);
    assert(footer_start(r, hl + 2));
    crate::grammar::lemma_footer_at(s, d + 2);
    assert(r[hl + 2] == tail[0]);
    assert(tail[0] == fs[0].token[0]);
    assert(fs[0].token[0] == s[d + 2]);
    assert(r[hl] == '\n');
    assert(r[hl + 1] == '\n');
    lemma_span_exact(r, hl, hl + 2, CharClass::Newline);
    lemma_sections_when(r, hl, None, fs);
}

/// The rendered text of a body and footers, after `line`.
pub open spec fn body_and_footers(line: Seq<char>, b: Seq<char>, fs: Seq<FooterView>) -> Seq<char> {
    line + (blank_line() + b + footers_text(fs))
}

/// The footers of `s` that follow its body read back the same after the rendered body.
#[verifier::spinoff_prover]
proof fn lemma_rendered_body_tail(
    s: Seq<char>,
    d: int,
    line: Seq<char>,
    b: Seq<char>,
    fs: Seq<FooterView>,
)
    requires
        0 <= d,
        d + 2 < s.len(),
        s[d + 2] != '\n',
        body_end(s, d + 2) == Ok::<(int, Option<int>), Failure>(
            (d + 2 + b.len(), Some(d + 4 + b.len())),
        ),
        footers_from(s, d + 4 + b.len()) == Ok::<Seq<FooterView>, Failure>(fs),
        fs.len() > 0,
        one_line_footers(fs),
    ensures
        ({
            let r = body_and_footers(line, b, fs);
            let k = line.len() + b.len() + 4int;
            &&& k < r.len()
            &&& footer_start(r, k)
            &&& footers_from(r, k) == Ok::<Seq<FooterView>, Failure>(fs)
            &&& r[k] != '\n'
        }),
{
    let hl = line.len() as int;
    let bl = b.len() as int;
    assert(fs =~= seq![fs[0]] + fs.drop_first());
    lemma_footers_text_front(fs[0], fs.drop_first());
    let tail = footer_text(fs[0]) + footers_text(fs.drop_first());
    let r = body_and_footers(line, b, fs);
    lemma_layout(line, b, tail);
    assert(r == line + (blank_line() + b + (blank_line() + tail)));
    lemma_body_before_footers(s, d + 2);
    lemma_rendered_tail(s, d + 4 + bl, fs, r, hl + bl + 4);
}

/// The body of `s` reads back the same after `line`, up to the rendered footers.
#[verifier::spinoff_prover]
#[verifier::rlimit(60)]
proof fn lemma_rendered_body_head(
    s: Seq<char>,
    d: int,
    line: Seq<char>,
    b: Seq<char>,
    fs: Seq<FooterView>,
)
    requires
        0 <= d,
        d + 2 < s.len(),
        s[d + 2] != '\n',
        !footer_start(s, d + 2),
        body_end(s, d + 2) == Ok::<(int, Option<int>), Failure>(
            (d + 2 + b.len(), Some(d + 4 + b.len())),
        ),
        b == s.subrange(d + 2, d + 2 + b.len()),
        ({
            let r = body_and_footers(line, b, fs);
            let k = line.len() + b.len() + 4int;
            &&& k < r.len()
            &&& footer_start(r, k)
            &&& r[k] != '\n'
        }),
        fs.len() > 0,
    ensures
        ({
            let r = body_and_footers(line, b, fs);
            let hl = line.len() as int;
            &&& !footer_start(r, hl + 2)
            &&& body_end(r, hl + 2) == Ok::<(int, Option<int>), Failure>(
                (hl + 2 + b.len(), Some(hl + 4 + b.len())),
            )
            &&& r.subrange(hl + 2, hl + 2 + b.len()) == b
            &&& hl + 2 < r.len()
            &&& r[hl + 1] == '\n'
            &&& r[hl + 2] != '\n'
            &&& span_end(r, hl, CharClass::Newline) < r.len()
        }),
{
    let hl = line.len() as int;
    let bl = b.len() as int;
    let r = body_and_footers(line, b, fs);
    let tail = footer_text(fs[0]) + footers_text(fs.drop_first());
    assert(fs =~= seq![fs[0]] + fs.drop_first());
    lemma_footers_text_front(fs[0], fs.drop_first());
    lemma_layout(line, b, tail);
    assert(r == line + (blank_line() + b + (blank_line() + tail)));
    let e = d + 2 + bl;
    lemma_body_before_footers(s, d + 2);
    assert forall|i: int| 0 <= i < bl + 2 implies #[trigger] s[d + 2 + i] == r[hl + 2 + i] by {
        if i < bl {
            assert(b[i] == s[d + 2 + i]);
        }
    }
    assert(window(s, d + 2, r, hl + 2, bl + 2));
    lemma_agree_body_footers(s, d + 2, r, hl + 2, bl, d + 2);
    lemma_span_end(s, d + 2, CharClass::LineChar);
    let z = span_end(s, d + 2, CharClass::LineChar);
    if z > e {
        assert(in_class(CharClass::LineChar, s[e]));
    }
    lemma_window_footer_start(s, d + 2, r, hl + 2, bl + 2, d + 2, z);
    lemma_span_exact(r, hl, hl + 2, CharClass::Newline);
}

/// Where `s` holds a body and then footers on one line each after the header line that ends
/// at `d`, their rendering after any other header line reads back the same.
#[verifier::spinoff_prover]
#[verifier::rlimit(60)]
proof fn lemma_sections_rendered_body_footers(
    s: Seq<char>,
    d: int,
    line: Seq<char>,
    b: Seq<char>,
    fs: Seq<FooterView>,
)
    requires
        0 <= d,
        d + 2 < s.len(),
        s[d + 2] != '\n',
        !footer_start(s, d + 2),
        body_end(s, d + 2) == Ok::<(int, Option<int>), Failure>(
            (d + 2 + b.len(), Some(d + 4 + b.len())),
        ),
        b == s.subrange(d + 2, d + 2 + b.len()),
        footers_from(s, d + 4 + b.len()) == Ok::<Seq<FooterView>, Failure>(fs),
        fs.len() > 0,
        one_line_footers(fs),
    ensures
        sections(body_and_footers(line, b, fs), line.len() as int) == Ok::<
            (Option<Seq<char>>, Seq<FooterView>),
            Failure,
        >((Some(b), fs)),
{
    lemma_rendered_body_tail(s, d, line, b, fs);
    lemma_rendered_body_head(s, d, line, b, fs);
    lemma_sections_when(body_and_footers(line, b, fs), line.len() as int, Some(b), fs);
}

proof fn lemma_commit_spec_parts(s: Seq<char>)
    requires
        commit_spec(s) is Ok,
    ensures
        header(s) is Ok,
        sections(s, header(s)->Ok_0.end) == Ok::<(Option<Seq<char>>, Seq<FooterView>), Failure>(
            (commit_spec(s)->Ok_0.body, commit_spec(s)->Ok_0.footers),
        ),
        commit_spec(s)->Ok_0 == crate::grammar::commit_of(
            header(s)->Ok_0,
            commit_spec(s)->Ok_0.body,
            commit_spec(s)->Ok_0.footers,
        ),
{
    reveal(sections);
    reveal(commit_spec);
}

proof fn lemma_commit_spec_of(r: Seq<char>, h: HeaderView, body: Option<Seq<char>>, fs: Seq<FooterView>)
    requires
        header(r) == Ok::<HeaderView, Failure>(h),
        sections(r, h.end) == Ok::<(Option<Seq<char>>, Seq<FooterView>), Failure>((body, fs)),
    ensures
        commit_spec(r) == Ok::<CommitView, Failure>(crate::grammar::commit_of(h, body, fs)),
{
    reveal(sections);
    reveal(commit_spec);
}

proof fn lemma_render_parts(c: CommitView)
    ensures
        render(c) == header_line(
            keyword(c.commit_type),
            c.scope,
            c.is_breaking_change,
            c.description,
        ) + (body_section(c.body) + footers_text(c.footers)),
{
    assert(header_text(c) =~= header_line(
        keyword(c.commit_type),
        c.scope,
        c.is_breaking_change,
        c.description,
    ));
    assert(render(c) =~= header_text(c) + (body_section(c.body) + footers_text(c.footers)));
}

/// A commit whose footers each stand on one line renders to text that parses back to the
/// same commit.
#[verifier::rlimit(60)]
#[verifier::spinoff_prover]
pub proof fn law_round_trip_one_line_footers(s: Seq<char>)
    requires
        commit_spec(s) is Ok,
        one_line_footers(commit_spec(s)->Ok_0.footers),
    ensures
        commit_spec(render(commit_spec(s)->Ok_0)) == commit_spec(s),
{
    let c = commit_spec(s)->Ok_0;
    if c.footers.len() == 0 {
        law_round_trip_without_footers(s);
        return;
    }
    lemma_commit_spec_parts(s);
    let h = header(s)->Ok_0;
    lemma_header_facts(s);
    lemma_type_round_trip(h.commit_type);
    lemma_ascii_lower(h.commit_type);
    let t = keyword(c.commit_type);
    let line = header_line(t, c.scope, c.is_breaking_change, c.description);
    let rest = body_section(c.body) + footers_text(c.footers);
    lemma_render_parts(c);
    lemma_sections_footers(s, h.end, c.body, c.footers);
    match c.body {
        None => {
            assert(rest =~= footers_text(c.footers));
            lemma_sections_rendered_footers_only(s, h.end, line, c.footers);
        },
        Some(b) => {
            assert(line + rest =~= body_and_footers(line, b, c.footers));
            lemma_sections_rendered_body_footers(s, h.end, line, b, c.footers);
        },
    }
    assert(c.footers =~= seq![c.footers[0]] + c.footers.drop_first());
    lemma_footers_text_front(c.footers[0], c.footers.drop_first());
    assert(rest[0] == '\n');
    lemma_header_parse(t, c.scope, c.is_breaking_change, c.description, rest);
    let h2 = header(line + rest)->Ok_0;
    lemma_commit_spec_of(line + rest, h2, c.body, c.footers);
    assert(any_breaking(c.footers) ==> c.is_breaking_change);
}

proof fn lemma_footer_first_char(x: Seq<char>, p: int)
    requires
        footer_start(x, p),
    ensures
        0 <= p < x.len(),
        x[p] != '\n',
{
    crate::grammar::lemma_footer_at(x, p);
    let bc = breaking_change_spaced();
    if occurs_at(x, p, bc) && sep_at(x, p + 15) is Some {
        assert(x[p] == x.subrange(p, p + 15)[0]);
    } else {
        lemma_span_end(x, p, CharClass::Alnum);
        if span_end(x, p, CharClass::Alnum) == p {
            assert(words_end(x, p) == p);
        }
        assert(in_class(CharClass::Alnum, x[p]));
    }
}

proof fn lemma_footers_from_step(r: Seq<char>, p: int, rest: Result<Seq<FooterView>, Failure>)
    requires
        footer_start(r, p),
        span_end(r, footer_at(r, p).1, CharClass::Newline) < r.len(),
        footers_from(r, span_end(r, footer_at(r, p).1, CharClass::Newline)) == rest,
    ensures
        footers_from(r, p) == match rest {
            Ok(fs) => Ok::<Seq<FooterView>, Failure>(seq![footer_at(r, p).0] + fs),
            Err(e) => Err(e),
        },
{
}

proof fn lemma_footers_from_last(r: Seq<char>, p: int)
    requires
        footer_start(r, p),
        span_end(r, footer_at(r, p).1, CharClass::Newline) >= r.len(),
    ensures
        footers_from(r, p) == Ok::<Seq<FooterView>, Failure>(seq![footer_at(r, p).0]),
{
}

/// Two footer lines, whatever their tokens, parse to both footers in their order: none is
/// merged into the other or dropped.
#[verifier::spinoff_prover]
pub proof fn law_footers_kept(x: Seq<char>, y: Seq<char>)
    requires
        footer_spec(x) is Ok,
        footer_spec(y) is Ok,
        footer_spec(x)->Ok_0.separator != Separator::ColonWithNewline,
        footer_spec(y)->Ok_0.separator != Separator::ColonWithNewline,
    ensures
        footers_spec(
            footer_text(footer_spec(x)->Ok_0) + seq!['\n'] + footer_text(footer_spec(y)->Ok_0),
        ) == Ok::<Seq<FooterView>, Failure>(
            seq![footer_spec(x)->Ok_0, footer_spec(y)->Ok_0],
        ),
{
    let f = footer_spec(x)->Ok_0;
    let g = footer_spec(y)->Ok_0;
    let fx = footer_text(f);
    let gy = footer_text(g);
    let r = fx + seq!['\n'] + gy;
    let k = fx.len() as int;
    assert(r.subrange(0, k) =~= fx);
    assert(r[k] == '\n');
    lemma_rendered_footer_at(x, 0, r, 0);
    assert(r.subrange(k + 1, r.len() as int) =~= gy);
    lemma_rendered_footer_at(y, 0, r, k + 1);
    lemma_footer_first_char(r, k + 1);
    lemma_span_exact(r, k, k + 1, CharClass::Newline);
    assert(span_end(r, r.len() as int, CharClass::Newline) == r.len());
    lemma_footers_from_last(r, k + 1);
    lemma_footers_from_step(r, 0, Ok(seq![g]));
    assert(seq![f] + seq![g] =~= seq![f, g]);
}

} // verus!

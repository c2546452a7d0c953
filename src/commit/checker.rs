//! A quick check of a whole commit message, line by line, against two patterns: one for
//! the header and one for footer lines. Used where a message arrives from outside, as in
//! a commit-msg hook.
use vstd::prelude::*;
use crate::grammar::{chars_of, lemma_span_end, scan, span_end, CharClass};
use crate::text::trim_bounds;

verus! {

/// A header: a word, an optional parenthesised scope, an optional `!`, `": "` and text.
pub const HEADER_PATTERN: &'static str = r"^(\w+)(\(([^)]+)\))?!?: (.+)$";

/// A footer line: a token, `": "` and text.
pub const FOOTER_PATTERN: &'static str = r"^(.+?): (.+)$";

pub const INVALID_HEADER: &'static str = "Invalid header";

pub const INVALID_FOOTER: &'static str = "Invalid footer or misplaced content after footer";

/// Whether the regular expression `pattern` matches somewhere in `text`; `None` when
/// `pattern` is not a valid regular expression.
pub uninterp spec fn regex_match(pattern: Seq<char>, text: Seq<char>) -> Option<bool>;

/// Relies on `regex::Regex::new`, which compiles `pattern` or fails on an invalid one,
/// and `regex::Regex::is_match`, which reports whether it matches anywhere in `text`.
/// Both depend on the pattern and the text alone.
#[verifier::external_body]
fn pattern_matches(pattern: &str, text: &str) -> (r: Option<bool>)
    ensures
        r == regex_match(pattern@, text@),
{
    match regex::Regex::new(pattern) {
        Ok(re) => Some(re.is_match(text)),
        Err(_) => None,
    }
}

/// The lines of `t` from position `p`, split at line feeds.
pub open spec fn lines_from(t: Seq<char>, p: int) -> Seq<Seq<char>>
    decreases t.len() - p,
    via lines_from_decreases
{
    let e = span_end(t, p, CharClass::LineChar);
    if p < 0 || e >= t.len() {
        seq![t.subrange(p, t.len() as int)]
    } else {
        seq![t.subrange(p, e)] + lines_from(t, e + 1)
    }
}

#[via_fn]
proof fn lines_from_decreases(t: Seq<char>, p: int) {
    if 0 <= p <= t.len() {
        lemma_span_end(t, p, CharClass::LineChar);
    }
}

pub open spec fn is_header_line(line: Seq<char>) -> bool {
    regex_match(HEADER_PATTERN@, line) == Some(true)
}

pub open spec fn is_footer_line(line: Seq<char>) -> bool {
    regex_match(FOOTER_PATTERN@, line) == Some(true)
}

/// After the first non-empty footer line, every non-empty line is a footer line.
pub open spec fn footers_last(lines: Seq<Seq<char>>) -> bool {
    forall|i: int, j: int|
        1 <= i < j < lines.len() && lines[i].len() > 0 && is_footer_line(#[trigger] lines[i])
            && #[trigger] lines[j].len() > 0 ==> is_footer_line(lines[j])
}

/// The verdict on a message: its trimmed text split into lines must start with a header
/// line, and no other content may follow a footer line.
pub open spec fn check_spec(message: Seq<char>) -> Result<(), Seq<char>> {
    let lines = lines_from(crate::text::trim(message), 0);
    if !is_header_line(lines[0]) {
        Err(INVALID_HEADER@)
    } else if !footers_last(lines) {
        Err(INVALID_FOOTER@)
    } else {
        Ok(())
    }
}

/// Checks a whole commit message (see `check_spec`).
pub fn parse_commit(commit: String) -> (r: Result<(), String>)
    ensures
        match r {
            Ok(_) => check_spec(commit@) == Ok::<(), Seq<char>>(()),
            Err(m) => check_spec(commit@) == Err::<(), Seq<char>>(m@),
        },
{
    let all = chars_of(commit.as_str());
    let (a, b) = trim_bounds(&all, 0, all.len());
    let trimmed = String::from_str(commit.as_str().substring_char(a, b));
    let text = trimmed.as_str();
    let t = chars_of(text);
    assert(all@.subrange(0, all@.len() as int) =~= commit@);
    let ghost lines = lines_from(t@, 0);
    let ghost mut seen: Seq<Seq<char>> = Seq::empty();
    let mut p: usize = 0;
    let mut found = false;
    let mut first = true;
    assert(seen + lines_from(t@, 0) =~= lines);
    loop
        invariant
            t@ == text@,
            text@ == crate::text::trim(commit@),
            lines == lines_from(t@, 0),
            p <= t.len(),
            first == (seen.len() == 0),
            lines == seen + lines_from(t@, p as int),
            seen.len() > 0 ==> is_header_line(seen[0]),
            footers_last(seen),
            found == exists|i: int|
                1 <= i < seen.len() && seen[i].len() > 0 && is_footer_line(#[trigger] seen[i]),
        decreases t.len() - p,
    {
        let ghost found0 = found;
        let e = scan(&t, p, CharClass::LineChar);
        proof {
            lemma_span_end(t@, p as int, CharClass::LineChar);
        }
        let line = text.substring_char(p, e);
        let ghost rest = lines_from(t@, p as int);
        assert(rest[0] == line@);
        if first {
            if pattern_matches(HEADER_PATTERN, line) != Some(true) {
                assert(lines[0] == line@);
                return Err(String::from_str(INVALID_HEADER));
            }
        } else if e > p {
            if pattern_matches(FOOTER_PATTERN, line) == Some(true) {
                found = true;
            } else if found {
                proof {
                    let i = choose|i: int|
                        1 <= i < seen.len() && seen[i].len() > 0 && is_footer_line(
                            #[trigger] seen[i],
                        );
                    let j = seen.len() as int;
                    assert(lines[i] == seen[i]);
                    assert(lines[j] == line@);
                    assert(lines[j].len() > 0);
                }
                assert(!footers_last(lines));
                return Err(String::from_str(INVALID_FOOTER));
            }
        }
        let ghost new_seen = seen.push(line@);
        proof {
            if !first && e > p && is_footer_line(line@) {
                assert(new_seen[seen.len() as int] == line@);
            }
            if found0 {
                let i = choose|i: int|
                    1 <= i < seen.len() && seen[i].len() > 0 && is_footer_line(#[trigger] seen[i]);
                assert(new_seen[i] == seen[i]);
            }
            assert forall|i: int|
                1 <= i < new_seen.len() && new_seen[i].len() > 0 && is_footer_line(
                    #[trigger] new_seen[i],
                ) implies found || (!first && e > p && is_footer_line(line@)) by {
                if i < seen.len() {
                    assert(new_seen[i] == seen[i]);
                }
            }
            assert forall|i: int, j: int|
                1 <= i < j < new_seen.len() && new_seen[i].len() > 0 && is_footer_line(
                    #[trigger] new_seen[i],
                ) && #[trigger] new_seen[j].len() > 0 implies is_footer_line(new_seen[j]) by {
                if j < seen.len() {
                    assert(new_seen[i] == seen[i]);
                    assert(new_seen[j] == seen[j]);
                } else {
                    assert(new_seen[i] == seen[i]);
                }
            }
        }
        if e >= t.len() {
            proof {
                assert(rest =~= seq![line@]);
                assert(lines =~= new_seen);
            }
            assert(lines[0] == new_seen[0]);
            return Ok(());
        }
        proof {
            assert(rest == seq![line@] + lines_from(t@, e + 1));
            assert(seen + rest =~= new_seen + lines_from(t@, e + 1));
            seen = new_seen;
        }
        first = false;
        p = e + 1;
    }
}

} // verus!

//! Parsing of commit messages in the Conventional Commits format.
//!
//! The grammar lives in `grammar` as spec functions and in `scanner` as the engine
//! proved against them; `conventional_commit` holds the commit model and its canonical
//! rendering; `errors` classifies failures. The functions below are the public entry
//! points: each parses its fragment against the whole input and returns either the
//! value the grammar gives or the classified failure, never a partial result.
use vstd::prelude::*;

pub mod commit;
pub mod config;
pub mod conventional_commit;
pub mod errors;
pub mod gh_cli;
pub mod grammar;
pub mod laws;
pub mod prompt;
pub mod scanner;
pub mod text;

use crate::conventional_commit::{
    footer_views, CommitType, ConventionalCommit, Footer, FooterView, Scope,
};
use crate::errors::{rejected, ParseError};
use crate::grammar::{
    body_spec, chars_of, commit_spec, commit_type_spec, description_spec, footer_spec,
    footers_spec, scan, whole_run, CharClass, Mismatch, Rule,
};
use crate::scanner::{
    body_end_exec, footer_at_exec, footer_failure_exec, footer_start_exec, footers_from_exec,
    header_exec, one_rule, sections_exec,
};

verus! {

/// Checks that the whole of `s` is one run of class `k`.
fn whole_run_exec(s: &Vec<char>, k: CharClass, rule: Rule) -> (r: Result<(), Mismatch>)
    ensures
        match r {
            Ok(_) => whole_run(s@, k, rule) == Ok::<Seq<char>, crate::grammar::Failure>(s@),
            Err(m) => whole_run(s@, k, rule) == Err::<Seq<char>, crate::grammar::Failure>(m@)
                && m.offset <= s.len(),
        },
{
    let e = scan(s, 0, k);
    if e == 0 {
        Err(Mismatch { offset: 0, expected: one_rule(rule) })
    } else if e < s.len() {
        Err(Mismatch { offset: e, expected: one_rule(Rule::Eoi) })
    } else {
        Ok(())
    }
}

/// Parses a commit type: the whole input must be ASCII letters. The type is matched
/// against the canonical keywords without regard to ASCII case.
pub fn parse_commit_type(subject: &str) -> (r: Result<CommitType, Box<ParseError>>)
    ensures
        match r {
            Ok(t) => commit_type_spec(subject@) is Ok && t@
                == crate::conventional_commit::commit_type_of(subject@),
            Err(e) => rejected(commit_type_spec(subject@), *e, subject@),
        },
{
    let s = chars_of(subject);
    match whole_run_exec(&s, CharClass::Alpha, Rule::CommitType) {
        Ok(_) => Ok(CommitType::parse_keyword(subject)),
        Err(m) => Err(Box::new(ParseError::at(&s, subject, m))),
    }
}

/// Parses a scope: the whole input must be characters other than parentheses.
pub fn parse_scope(scope: &str) -> (r: Result<Scope, ParseError>)
    ensures
        match r {
            Ok(sc) => crate::grammar::scope_spec(scope@) == Ok::<
                Seq<char>,
                crate::grammar::Failure,
            >(sc.noun@),
            Err(e) => rejected(crate::grammar::scope_spec(scope@), e, scope@),
        },
{
    let s = chars_of(scope);
    match whole_run_exec(&s, CharClass::ScopeChar, Rule::ScopeToken) {
        Ok(_) => Ok(Scope { noun: String::from_str(scope) }),
        Err(m) => Err(ParseError::at(&s, scope, m)),
    }
}

/// Parses a description: the whole input must be one non-empty line.
pub fn parse_description(subject: &str) -> (r: Result<String, ParseError>)
    ensures
        match r {
            Ok(d) => description_spec(subject@) == Ok::<Seq<char>, crate::grammar::Failure>(
                d@,
            ),
            Err(e) => rejected(description_spec(subject@), e, subject@),
        },
{
    let s = chars_of(subject);
    match whole_run_exec(&s, CharClass::LineChar, Rule::Description) {
        Ok(_) => Ok(String::from_str(subject)),
        Err(m) => Err(ParseError::at(&s, subject, m)),
    }
}

/// Parses a body: paragraphs of non-empty lines, one blank line between two of them.
pub fn parse_body(subject: &str) -> (r: Result<String, ParseError>)
    ensures
        match r {
            Ok(b) => body_spec(subject@) == Ok::<Seq<char>, crate::grammar::Failure>(b@),
            Err(e) => rejected(body_spec(subject@), e, subject@),
        },
{
    let s = chars_of(subject);
    if s.len() == 0 || s[0] == '\n' {
        return Err(ParseError::at(&s, subject, Mismatch { offset: 0, expected: one_rule(Rule::Body) }));
    }
    match body_end_exec(&s, 0) {
        Err(m) => Err(ParseError::at(&s, subject, m)),
        Ok((e, _)) => if e < s.len() {
            Err(ParseError::at(&s, subject, Mismatch { offset: e, expected: one_rule(Rule::Eoi) }))
        } else {
            Ok(String::from_str(subject))
        },
    }
}

/// Parses a single footer: `token: value`, `token #value`, or `token:` and a value on the
/// lines that follow.
pub fn parse_footer(subject: &str) -> (r: Result<Footer, ParseError>)
    ensures
        match r {
            Ok(f) => footer_spec(subject@) == Ok::<FooterView, crate::grammar::Failure>(f@),
            Err(e) => rejected(footer_spec(subject@), e, subject@),
        },
{
    let s = chars_of(subject);
    if !footer_start_exec(&s, 0) {
        let m = footer_failure_exec(&s, 0);
        return Err(ParseError::at(&s, subject, m));
    }
    let (f, k) = footer_at_exec(&s, subject, 0);
    proof {
        crate::grammar::lemma_footer_at(s@, 0);
    }
    if k < s.len() {
        Err(ParseError::at(&s, subject, Mismatch { offset: k, expected: one_rule(Rule::Eoi) }))
    } else {
        Ok(f)
    }
}

/// Parses one or more footers, in order, duplicates kept.
pub fn parse_footers(footer: &str) -> (r: Result<Vec<Footer>, ParseError>)
    ensures
        match r {
            Ok(v) => footers_spec(footer@) == Ok::<Seq<FooterView>, crate::grammar::Failure>(
                footer_views(v@),
            ),
            Err(e) => rejected(footers_spec(footer@), e, footer@),
        },
{
    let s = chars_of(footer);
    match footers_from_exec(&s, footer, 0) {
        Ok(v) => Ok(v),
        Err(m) => Err(ParseError::at(&s, footer, m)),
    }
}

/// Parses a whole commit message: the header, then optionally a body and footers.
pub fn parse_commit(commit_str: &str) -> (r: Result<ConventionalCommit, ParseError>)
    ensures
        match r {
            Ok(c) => commit_spec(commit_str@) == Ok::<
                crate::conventional_commit::CommitView,
                crate::grammar::Failure,
            >(c@),
            Err(e) => rejected(commit_spec(commit_str@), e, commit_str@),
        },
{
    proof {
        reveal(commit_spec);
    }
    let s = chars_of(commit_str);
    let h = match header_exec(&s, commit_str) {
        Ok(h) => h,
        Err(m) => return Err(ParseError::at(&s, commit_str, m)),
    };
    let (body, footers) = match sections_exec(&s, commit_str, h.end) {
        Ok(x) => x,
        Err(m) => return Err(ParseError::at(&s, commit_str, m)),
    };
    let mut commit = ConventionalCommit {
        commit_type: CommitType::parse_keyword(h.commit_type.as_str()),
        scope: match h.scope {
            Some(noun) => Some(Scope { noun }),
            None => None,
        },
        description: h.description,
        body,
        footers: Vec::new(),
        is_breaking_change: h.breaking,
    };
    assert(footer_views(commit.footers@) =~= Seq::<FooterView>::empty());
    commit.set_footers(footers);
    assert(commit@.footers =~= footer_views(footers@));
    Ok(commit)
}

} // verus!

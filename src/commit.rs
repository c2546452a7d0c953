//! Assembling a commit message from the answers gathered one field at a time.
use vstd::prelude::*;
use crate::conventional_commit::opt_view;
use crate::grammar::chars_of;

pub mod builder;
pub mod checker;
pub mod writer;

verus! {

/// What a commit builder holds: each field, if it was given.
pub struct BuilderView {
    pub commit_type: Option<Seq<char>>,
    pub scope: Option<Seq<char>>,
    pub subject: Option<Seq<char>>,
    pub body: Option<Seq<char>>,
    pub breaking_change: Option<Seq<char>>,
    pub issues: Option<Seq<char>>,
}

/// `s` with each comma replaced by `sep`.
pub open spec fn expand_commas(s: Seq<char>, sep: Seq<char>) -> Seq<char>
    decreases s.len(),
{
    if s.len() == 0 {
        Seq::empty()
    } else {
        expand_commas(s.drop_last(), sep) + if s.last() == ',' {
            sep
        } else {
            seq![s.last()]
        }
    }
}

pub open spec fn closes_prefix() -> Seq<char> {
    seq!['\n', '\n', 'c', 'l', 'o', 's', 'e', 's', ' ', '#']
}

pub open spec fn breaking_prefix() -> Seq<char> {
    seq!['\n', '\n'] + crate::conventional_commit::breaking_change_spaced() + seq![':', ' ']
}

pub open spec fn or_empty(o: Option<Seq<char>>) -> Seq<char> {
    match o {
        Some(x) => x,
        None => Seq::empty(),
    }
}

/// The message a builder makes: `type(scope)!: subject`, then the body, the issues
/// closed (`closes #1` and `issue_sep` before each further number) and the breaking
/// change, each after a blank line. Absent fields leave no trace.
pub open spec fn builder_text(v: BuilderView, issue_sep: Seq<char>) -> Seq<char> {
    head_part(v.commit_type, v.scope, v.subject, v.breaking_change is Some) + body_part(v.body)
        + issues_part(v.issues, issue_sep) + breaking_part(v.breaking_change)
}

/// `type(scope)!: subject`, each piece only where its field is set.
pub open spec fn head_part(
    commit_type: Option<Seq<char>>,
    scope: Option<Seq<char>>,
    subject: Option<Seq<char>>,
    breaking: bool,
) -> Seq<char> {
    or_empty(commit_type) + match scope {
        Some(x) => seq!['('] + x + seq![')'],
        None => Seq::empty(),
    } + match subject {
        Some(x) => if breaking {
            seq!['!', ':', ' '] + x
        } else {
            seq![':', ' '] + x
        },
        None => Seq::empty(),
    }
}

pub open spec fn body_part(body: Option<Seq<char>>) -> Seq<char> {
    match body {
        Some(b) => seq!['\n', '\n'] + b,
        None => Seq::empty(),
    }
}

pub open spec fn issues_part(issues: Option<Seq<char>>, issue_sep: Seq<char>) -> Seq<char> {
    match issues {
        Some(i) => closes_prefix() + expand_commas(i, issue_sep),
        None => Seq::empty(),
    }
}

pub open spec fn breaking_part(breaking_change: Option<Seq<char>>) -> Seq<char> {
    match breaking_change {
        Some(b) => breaking_prefix() + b,
        None => Seq::empty(),
    }
}

proof fn lemma_expand_plain(x: Seq<char>, y: Seq<char>, sep: Seq<char>)
    requires
        forall|j: int| 0 <= j < y.len() ==> y[j] != ',',
    ensures
        expand_commas(x + y, sep) == expand_commas(x, sep) + y,
    decreases y.len(),
{
    if y.len() > 0 {
        assert((x + y).drop_last() =~= x + y.drop_last());
        lemma_expand_plain(x, y.drop_last(), sep);
        assert(expand_commas(x, sep) + y.drop_last() + seq![y.last()] =~= expand_commas(x, sep)
            + y);
    } else {
        assert(x + y =~= x);
        assert(expand_commas(x, sep) + y =~= expand_commas(x, sep));
    }
}

/// Appends `text` with each comma replaced by `sep`.
fn append_expanded(r: &mut String, text: &str, sep: &str)
    ensures
        final(r)@ == old(r)@ + expand_commas(text@, sep@),
{
    let s = chars_of(text);
    let ghost start = r@;
    let mut seg: usize = 0;
    let mut i: usize = 0;
    while i < s.len()
        invariant
            s@ == text@,
            seg <= i <= s.len(),
            r@ == start + expand_commas(s@.subrange(0, seg as int), sep@),
            forall|j: int| seg <= j < i ==> s@[j] != ',',
        decreases s.len() - i,
    {
        if s[i] == ',' {
            r.append(text.substring_char(seg, i));
            r.append(sep);
            proof {
                let y = s@.subrange(seg as int, i as int);
                lemma_expand_plain(s@.subrange(0, seg as int), y, sep@);
                assert(s@.subrange(0, seg as int) + y =~= s@.subrange(0, i as int));
                assert(s@.subrange(0, i + 1).drop_last() =~= s@.subrange(0, i as int));
            }
            seg = i + 1;
        }
        i += 1;
    }
    r.append(text.substring_char(seg, s.len()));
    proof {
        let y = s@.subrange(seg as int, s.len() as int);
        lemma_expand_plain(s@.subrange(0, seg as int), y, sep@);
        assert(s@.subrange(0, seg as int) + y =~= s@);
    }
}

fn head_text(
    commit_type: &Option<String>,
    scope: &Option<String>,
    subject: &Option<String>,
    breaking: bool,
) -> (r: String)
    ensures
        r@ == head_part(opt_view(*commit_type), opt_view(*scope), opt_view(*subject), breaking),
{
    let mut commit = String::new();
    if let Some(t) = commit_type {
        commit.append(t.as_str());
    }
    if let Some(sc) = scope {
        proof {
            reveal_strlit("(");
            reveal_strlit(")");
        }
        commit.append("(");
        commit.append(sc.as_str());
        commit.append(")");
    }
    if let Some(sub) = subject {
        proof {
            reveal_strlit("!: ");
            reveal_strlit(": ");
        }
        if breaking {
            commit.append("!: ");
        } else {
            commit.append(": ");
        }
        commit.append(sub.as_str());
    }
    assert(commit@ =~= head_part(opt_view(*commit_type), opt_view(*scope), opt_view(*subject), breaking));
    commit
}

fn push_body(r: &mut String, body: &Option<String>)
    ensures
        final(r)@ == old(r)@ + body_part(opt_view(*body)),
{
    if let Some(b) = body {
        proof {
            reveal_strlit("\n\n");
        }
        r.append("\n\n");
        r.append(b.as_str());
        assert(final(r)@ =~= old(r)@ + body_part(opt_view(*body)));
    } else {
        assert(r@ =~= old(r)@ + body_part(opt_view(*body)));
    }
}

fn push_issues(r: &mut String, issues: &Option<String>, issue_sep: &str)
    ensures
        final(r)@ == old(r)@ + issues_part(opt_view(*issues), issue_sep@),
{
    if let Some(i) = issues {
        proof {
            reveal_strlit("\n\ncloses #");
        }
        assert("\n\ncloses #"@ =~= closes_prefix());
        r.append("\n\ncloses #");
        append_expanded(r, i.as_str(), issue_sep);
        assert(final(r)@ =~= old(r)@ + issues_part(opt_view(*issues), issue_sep@));
    } else {
        assert(r@ =~= old(r)@ + issues_part(opt_view(*issues), issue_sep@));
    }
}

fn push_breaking(r: &mut String, breaking_change: &Option<String>)
    ensures
        final(r)@ == old(r)@ + breaking_part(opt_view(*breaking_change)),
{
    if let Some(bc) = breaking_change {
        proof {
            reveal_strlit("\n\nBREAKING CHANGE: ");
        }
        assert("\n\nBREAKING CHANGE: "@ =~= breaking_prefix());
        r.append("\n\nBREAKING CHANGE: ");
        r.append(bc.as_str());
        assert(final(r)@ =~= old(r)@ + breaking_part(opt_view(*breaking_change)));
    } else {
        assert(r@ =~= old(r)@ + breaking_part(opt_view(*breaking_change)));
    }
}

/// The message that the given fields make (see `builder_text`).
pub(crate) fn assemble(
    commit_type: &Option<String>,
    scope: &Option<String>,
    subject: &Option<String>,
    body: &Option<String>,
    breaking_change: &Option<String>,
    issues: &Option<String>,
    issue_sep: &str,
) -> (r: String)
    ensures
        r@ == builder_text(
            BuilderView {
                commit_type: opt_view(*commit_type),
                scope: opt_view(*scope),
                subject: opt_view(*subject),
                body: opt_view(*body),
                breaking_change: opt_view(*breaking_change),
                issues: opt_view(*issues),
            },
            issue_sep@,
        ),
{
    let mut commit = head_text(commit_type, scope, subject, breaking_change.is_some());
    push_body(&mut commit, body);
    push_issues(&mut commit, issues, issue_sep);
    push_breaking(&mut commit, breaking_change);
    commit
}

/// The components of a commit message, gathered one at a time.
pub struct CommitBuilder {
    commit_type: Option<String>,
    scope: Option<String>,
    subject: Option<String>,
    body: Option<String>,
    breaking_change: Option<String>,
    issues: Option<String>,
}

impl View for CommitBuilder {
    type V = BuilderView;

    closed spec fn view(&self) -> BuilderView {
        BuilderView {
            commit_type: opt_view(self.commit_type),
            scope: opt_view(self.scope),
            subject: opt_view(self.subject),
            body: opt_view(self.body),
            breaking_change: opt_view(self.breaking_change),
            issues: opt_view(self.issues),
        }
    }
}

impl CommitBuilder {
    /// A builder with no field set.
    pub fn new() -> (r: Self)
        ensures
            r@ == (BuilderView {
                commit_type: None,
                scope: None,
                subject: None,
                body: None,
                breaking_change: None,
                issues: None,
            }),
    {
        Self {
            commit_type: None,
            scope: None,
            subject: None,
            body: None,
            breaking_change: None,
            issues: None,
        }
    }

    /// Sets the commit type.
    pub fn add_type(&mut self, commit_type: String) -> (r: &mut Self)
        ensures
            r@ == (BuilderView { commit_type: Some(commit_type@), ..old(self)@ }),
            final(self)@ == final(r)@,
    {
        self.commit_type = Some(commit_type);
        self
    }

    /// Sets the scope.
    pub fn add_scope(&mut self, scope: String) -> (r: &mut Self)
        ensures
            r@ == (BuilderView { scope: Some(scope@), ..old(self)@ }),
            final(self)@ == final(r)@,
    {
        self.scope = Some(scope);
        self
    }

    /// Sets the subject.
    pub fn add_subject(&mut self, subject: String) -> (r: &mut Self)
        ensures
            r@ == (BuilderView { subject: Some(subject@), ..old(self)@ }),
            final(self)@ == final(r)@,
    {
        self.subject = Some(subject);
        self
    }

    /// Sets the body.
    pub fn add_body(&mut self, body: String) -> (r: &mut Self)
        ensures
            r@ == (BuilderView { body: Some(body@), ..old(self)@ }),
            final(self)@ == final(r)@,
    {
        self.body = Some(body);
        self
    }

    /// Sets the breaking-change note.
    pub fn add_breaking_change(&mut self, breaking_change: String) -> (r: &mut Self)
        ensures
            r@ == (BuilderView { breaking_change: Some(breaking_change@), ..old(self)@ }),
            final(self)@ == final(r)@,
    {
        self.breaking_change = Some(breaking_change);
        self
    }

    /// Sets the issues closed, as numbers separated by commas.
    pub fn add_issues(&mut self, issues: String) -> (r: &mut Self)
        ensures
            r@ == (BuilderView { issues: Some(issues@), ..old(self)@ }),
            final(self)@ == final(r)@,
    {
        self.issues = Some(issues);
        self
    }

    /// The message: issues read `closes #1, #2`.
    pub fn build(&self) -> (r: String)
        ensures
            r@ == builder_text(self@, seq![',', ' ', '#']),
    {
        proof {
            reveal_strlit(", #");
        }
        assert(", #"@ =~= seq![',', ' ', '#']);
        assemble(
            &self.commit_type,
            &self.scope,
            &self.subject,
            &self.body,
            &self.breaking_change,
            &self.issues,
            ", #",
        )
    }
}

} // verus!

//! A commit builder that repeats the closing keyword before each issue.
use vstd::prelude::*;
use crate::commit::{assemble, builder_text, BuilderView};
use crate::conventional_commit::opt_view;

verus! {

/// The components of a commit message, gathered one at a time.
pub struct CommitBuilder {
    commit_type: Option<String>,
    scope: Option<String>,
    subject: Option<String>,
    body: Option<String>,
    breaking_change: Option<String>,
    issues: Option<String>,
}

impl View for CommitBuilder {
    type V = BuilderView;

    closed spec fn view(&self) -> BuilderView {
        BuilderView {
            commit_type: opt_view(self.commit_type),
            scope: opt_view(self.scope),
            subject: opt_view(self.subject),
            body: opt_view(self.body),
            breaking_change: opt_view(self.breaking_change),
            issues: opt_view(self.issues),
        }
    }
}

/// `", closes #"`, put before each issue after the first.
pub open spec fn repeated_closes() -> Seq<char> {
    seq![',', ' ', 'c', 'l', 'o', 's', 'e', 's', ' ', '#']
}

impl CommitBuilder {
    /// A builder with no field set.
    pub fn new() -> (r: Self)
        ensures
            r@ == (BuilderView {
                commit_type: None,
                scope: None,
                subject: None,
                body: None,
                breaking_change: None,
                issues: None,
            }),
    {
        Self {
            commit_type: None,
            scope: None,
            subject: None,
            body: None,
            breaking_change: None,
            issues: None,
        }
    }

    /// Sets the commit type.
    pub fn add_type(&mut self, commit_type: String) -> (r: &mut Self)
        ensures
            r@ == (BuilderView { commit_type: Some(commit_type@), ..old(self)@ }),
            final(self)@ == final(r)@,
    {
        self.commit_type = Some(commit_type);
        self
    }

    /// Sets the scope.
    pub fn add_scope(&mut self, scope: String) -> (r: &mut Self)
        ensures
            r@ == (BuilderView { scope: Some(scope@), ..old(self)@ }),
            final(self)@ == final(r)@,
    {
        self.scope = Some(scope);
        self
    }

    /// Sets the subject.
    pub fn add_subject(&mut self, subject: String) -> (r: &mut Self)
        ensures
            r@ == (BuilderView { subject: Some(subject@), ..old(self)@ }),
            final(self)@ == final(r)@,
    {
        self.subject = Some(subject);
        self
    }

    /// Sets the body.
    pub fn add_body(&mut self, body: String) -> (r: &mut Self)
        ensures
            r@ == (BuilderView { body: Some(body@), ..old(self)@ }),
            final(self)@ == final(r)@,
    {
        self.body = Some(body);
        self
    }

    /// Sets the breaking-change note.
    pub fn add_breaking_change(&mut self, breaking_change: String) -> (r: &mut Self)
        ensures
            r@ == (BuilderView { breaking_change: Some(breaking_change@), ..old(self)@ }),
            final(self)@ == final(r)@,
    {
        self.breaking_change = Some(breaking_change);
        self
    }

    /// Sets the issues closed, as numbers separated by commas.
    pub fn add_issues(&mut self, issues: String) -> (r: &mut Self)
        ensures
            r@ == (BuilderView { issues: Some(issues@), ..old(self)@ }),
            final(self)@ == final(r)@,
    {
        self.issues = Some(issues);
        self
    }

    /// The message: issues read `closes #1, closes #2`.
    pub fn build(&self) -> (r: String)
        ensures
            r@ == builder_text(self@, repeated_closes()),
    {
        proof {
            reveal_strlit(", closes #");
        }
        assert(", closes #"@ =~= repeated_closes());
        assemble(
            &self.commit_type,
            &self.scope,
            &self.subject,
            &self.body,
            &self.breaking_change,
            &self.issues,
            ", closes #",
        )
    }
}

} // verus!

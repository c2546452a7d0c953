//! The commit model: commit types, scopes, footers and the aggregate commit, with
//! their mathematical views and the canonical rendering of a commit as text.
use vstd::prelude::*;
use crate::text::{ascii_lower, chars_equal, to_ascii_lowercase};
use crate::grammar::chars_of;

verus! {

/// The kind of change a commit makes.
#[derive(Debug, Clone, Eq, PartialEq)]
pub enum CommitType {
    Feature,
    Bug,
    Chore,
    Revert,
    Perf,
    Doc,
    Style,
    Refactor,
    Test,
    Build,
    Ci,
    Custom(String),
}

/// What a `CommitType` denotes.
pub enum CommitTypeView {
    Feature,
    Bug,
    Chore,
    Revert,
    Perf,
    Doc,
    Style,
    Refactor,
    Test,
    Build,
    Ci,
    Custom(Seq<char>),
}

impl View for CommitType {
    type V = CommitTypeView;

    open spec fn view(&self) -> CommitTypeView {
        match self {
            CommitType::Feature => CommitTypeView::Feature,
            CommitType::Bug => CommitTypeView::Bug,
            CommitType::Chore => CommitTypeView::Chore,
            CommitType::Revert => CommitTypeView::Revert,
            CommitType::Perf => CommitTypeView::Perf,
            CommitType::Doc => CommitTypeView::Doc,
            CommitType::Style => CommitTypeView::Style,
            CommitType::Refactor => CommitTypeView::Refactor,
            CommitType::Test => CommitTypeView::Test,
            CommitType::Build => CommitTypeView::Build,
            CommitType::Ci => CommitTypeView::Ci,
            CommitType::Custom(s) => CommitTypeView::Custom(s@),
        }
    }
}

/// The canonical commit types, in the order in which they are matched.
pub open spec fn canonical_kinds() -> Seq<CommitTypeView> {
    seq![
        CommitTypeView::Feature,
        CommitTypeView::Bug,
        CommitTypeView::Chore,
        CommitTypeView::Revert,
        CommitTypeView::Perf,
        CommitTypeView::Doc,
        CommitTypeView::Style,
        CommitTypeView::Refactor,
        CommitTypeView::Test,
        CommitTypeView::Build,
        CommitTypeView::Ci,
    ]
}

/// The keyword of each commit type: the one table that both matching and rendering use.
pub open spec fn keyword(k: CommitTypeView) -> Seq<char> {
    match k {
        CommitTypeView::Feature => seq!['f', 'e', 'a', 't'],
        CommitTypeView::Bug => seq!['b', 'u', 'g'],
        CommitTypeView::Chore => seq!['c', 'h', 'o', 'r', 'e'],
        CommitTypeView::Revert => seq!['r', 'e', 'v', 'e', 'r', 't'],
        CommitTypeView::Perf => seq!['p', 'e', 'r', 'f'],
        CommitTypeView::Doc => seq!['d', 'o', 'c'],
        CommitTypeView::Style => seq!['s', 't', 'y', 'l', 'e'],
        CommitTypeView::Refactor => seq!['r', 'e', 'f', 'a', 'c', 't', 'o', 'r'],
        CommitTypeView::Test => seq!['t', 'e', 's', 't'],
        CommitTypeView::Build => seq!['b', 'u', 'i', 'l', 'd'],
        CommitTypeView::Ci => seq!['c', 'i'],
        CommitTypeView::Custom(t) => t,
    }
}

/// The first canonical type at index `i` or later whose keyword is `t`, else `Custom(t)`.
pub open spec fn lookup_from(t: Seq<char>, i: int) -> CommitTypeView
    decreases canonical_kinds().len() - i,
{
    if i < 0 || i >= canonical_kinds().len() {
        CommitTypeView::Custom(t)
    } else if keyword(canonical_kinds()[i]) == t {
        canonical_kinds()[i]
    } else {
        lookup_from(t, i + 1)
    }
}

/// The commit type that a raw type token denotes: matched without regard to ASCII case,
/// and kept in lower case when it is not canonical.
pub open spec fn commit_type_of(raw: Seq<char>) -> CommitTypeView {
    lookup_from(ascii_lower(raw), 0)
}

/// The views of a sequence of commit types.
pub open spec fn type_views(v: Seq<CommitType>) -> Seq<CommitTypeView> {
    v.map_values(|c: CommitType| c@)
}

impl CommitType {
    /// The keyword that stands for this type in a commit header.
    pub fn keyword(&self) -> (r: &str)
        ensures
            r@ == keyword(self@),
    {
        match self {
            CommitType::Feature => {
                proof {
                    reveal_strlit("feat");
                }
                assert("feat"@ =~= keyword(self@));
                "feat"
            },
            CommitType::Bug => {
                proof {
                    reveal_strlit("bug");
                }
                assert("bug"@ =~= keyword(self@));
                "bug"
            },
            CommitType::Chore => {
                proof {
                    reveal_strlit("chore");
                }
                assert("chore"@ =~= keyword(self@));
                "chore"
            },
            CommitType::Revert => {
                proof {
                    reveal_strlit("revert");
                }
                assert("revert"@ =~= keyword(self@));
                "revert"
            },
            CommitType::Perf => {
                proof {
                    reveal_strlit("perf");
                }
                assert("perf"@ =~= keyword(self@));
                "perf"
            },
            CommitType::Doc => {
                proof {
                    reveal_strlit("doc");
                }
                assert("doc"@ =~= keyword(self@));
                "doc"
            },
            CommitType::Style => {
                proof {
                    reveal_strlit("style");
                }
                assert("style"@ =~= keyword(self@));
                "style"
            },
            CommitType::Refactor => {
                proof {
                    reveal_strlit("refactor");
                }
                assert("refactor"@ =~= keyword(self@));
                "refactor"
            },
            CommitType::Test => {
                proof {
                    reveal_strlit("test");
                }
                assert("test"@ =~= keyword(self@));
                "test"
            },
            CommitType::Build => {
                proof {
                    reveal_strlit("build");
                }
                assert("build"@ =~= keyword(self@));
                "build"
            },
            CommitType::Ci => {
                proof {
                    reveal_strlit("ci");
                }
                assert("ci"@ =~= keyword(self@));
                "ci"
            },
            CommitType::Custom(s) => s.as_str(),
        }
    }

    /// The canonical types, matched in this order.
    pub fn canonical() -> (r: Vec<CommitType>)
        ensures
            type_views(r@) == canonical_kinds(),
    {
        let r = vec![
            CommitType::Feature,
            CommitType::Bug,
            CommitType::Chore,
            CommitType::Revert,
            CommitType::Perf,
            CommitType::Doc,
            CommitType::Style,
            CommitType::Refactor,
            CommitType::Test,
            CommitType::Build,
            CommitType::Ci,
        ];
        assert(type_views(r@) =~= canonical_kinds());
        r
    }

    /// Every variant, the open one last with an empty name.
    pub fn variants() -> (r: Vec<CommitType>)
        ensures
            type_views(r@) == canonical_kinds().push(
                CommitTypeView::Custom(Seq::empty()),
            ),
    {
        let r = vec![
            CommitType::Feature,
            CommitType::Bug,
            CommitType::Chore,
            CommitType::Revert,
            CommitType::Perf,
            CommitType::Doc,
            CommitType::Style,
            CommitType::Refactor,
            CommitType::Test,
            CommitType::Build,
            CommitType::Ci,
            CommitType::Custom(String::new()),
        ];
        assert(type_views(r@) =~= canonical_kinds().push(CommitTypeView::Custom(Seq::empty())));
        r
    }

    /// The commit type that a type token denotes (see `commit_type_of`).
    pub fn parse_keyword(text: &str) -> (r: CommitType)
        ensures
            r@ == commit_type_of(text@),
    {
        let lower = to_ascii_lowercase(text);
        let t = chars_of(lower.as_str());
        let mut table = CommitType::canonical();
        let mut i: usize = 0;
        while i < table.len()
            invariant
                type_views(table@) == canonical_kinds(),
                t@ == ascii_lower(text@),
                i <= table.len(),
                lookup_from(t@, i as int) == commit_type_of(text@),
            decreases table.len() - i,
        {
            assert(table@[i as int]@ == canonical_kinds()[i as int]);
            let k = chars_of(table[i].keyword());
            if chars_equal(&k, &t) {
                return table.remove(i);
            }
            i += 1;
        }
        CommitType::Custom(lower)
    }

    /// The text that stands for this type in a commit header.
    pub fn to_text(&self) -> (r: String)
        ensures
            r@ == keyword(self@),
    {
        String::from_str(self.keyword())
    }
}

impl From<&str> for CommitType {
    fn from(commit_type: &str) -> Self {
        CommitType::parse_keyword(commit_type)
    }
}

impl vstd::std_specs::convert::FromSpecImpl<&str> for CommitType {
    open spec fn obeys_from_spec() -> bool {
        false
    }

    open spec fn from_spec(v: &str) -> CommitType {
        CommitType::Feature
    }
}

/// How a footer's token is joined to its content.
#[derive(Clone, Copy, Debug, Eq, PartialEq, Structural)]
pub enum Separator {
    /// `": "`
    Colon,
    /// `" #"`
    Pound,
    /// `":"` and a line feed, before content that may span lines.
    ColonWithNewline,
}

/// The spelling of each separator.
pub open spec fn separator_text(sep: Separator) -> Seq<char> {
    match sep {
        Separator::Colon => seq![':', ' '],
        Separator::Pound => seq![' ', '#'],
        Separator::ColonWithNewline => seq![':', '\n'],
    }
}

impl Separator {
    /// The spelling of this separator.
    pub fn as_text(&self) -> (r: &str)
        ensures
            r@ == separator_text(*self),
    {
        match self {
            Separator::Colon => {
                proof {
                    reveal_strlit(": ");
                }
                assert(": "@ =~= separator_text(*self));
                ": "
            },
            Separator::Pound => {
                proof {
                    reveal_strlit(" #");
                }
                assert(" #"@ =~= separator_text(*self));
                " #"
            },
            Separator::ColonWithNewline => {
                proof {
                    reveal_strlit(":\n");
                }
                assert(":\n"@ =~= separator_text(*self));
                ":\n"
            },
        }
    }

    /// The separator spelled `text`, if any.
    pub fn from_spelling(text: &str) -> (r: Option<Separator>)
        ensures
            r matches Some(sep) ==> separator_text(sep) == text@,
            r is None ==> forall|sep: Separator| separator_text(sep) != text@,
    {
        let t = chars_of(text);
        let colon = chars_of(Separator::Colon.as_text());
        let pound = chars_of(Separator::Pound.as_text());
        let newline = chars_of(Separator::ColonWithNewline.as_text());
        if chars_equal(&t, &colon) {
            Some(Separator::Colon)
        } else if chars_equal(&t, &pound) {
            Some(Separator::Pound)
        } else if chars_equal(&t, &newline) {
            Some(Separator::ColonWithNewline)
        } else {
            assert forall|sep: Separator| separator_text(sep) != text@ by {
                match sep {
                    Separator::Colon => {},
                    Separator::Pound => {},
                    Separator::ColonWithNewline => {},
                }
            }
            None
        }
    }
}

impl Default for Separator {
    fn default() -> (r: Separator)
        ensures
            r == Separator::Colon,
    {
        Separator::Colon
    }
}

impl From<&str> for Separator {
    /// The separator spelled `value`; the default, `": "`, for any other spelling.
    fn from(value: &str) -> Self {
        match Separator::from_spelling(value) {
            Some(sep) => sep,
            None => Separator::Colon,
        }
    }
}

impl vstd::std_specs::convert::FromSpecImpl<&str> for Separator {
    open spec fn obeys_from_spec() -> bool {
        false
    }

    open spec fn from_spec(v: &str) -> Separator {
        Separator::Colon
    }
}

/// A structured trailer line: a token, a separator and the content.
#[derive(Clone, Debug, Eq, PartialEq)]
pub struct Footer {
    pub token: String,
    pub separator: Separator,
    pub content: String,
}

/// What a `Footer` holds.
pub struct FooterView {
    pub token: Seq<char>,
    pub separator: Separator,
    pub content: Seq<char>,
}

impl View for Footer {
    type V = FooterView;

    open spec fn view(&self) -> FooterView {
        FooterView { token: self.token@, separator: self.separator, content: self.content@ }
    }
}

/// The views of a sequence of footers.
pub open spec fn footer_views(v: Seq<Footer>) -> Seq<FooterView> {
    v.map_values(|f: Footer| f@)
}

pub open spec fn breaking_change_spaced() -> Seq<char> {
    seq!['B', 'R', 'E', 'A', 'K', 'I', 'N', 'G', ' ', 'C', 'H', 'A', 'N', 'G', 'E']
}

pub open spec fn breaking_change_hyphenated() -> Seq<char> {
    seq!['B', 'R', 'E', 'A', 'K', 'I', 'N', 'G', '-', 'C', 'H', 'A', 'N', 'G', 'E']
}

/// A footer token announces a breaking change when it is one of these two spellings exactly.
pub open spec fn is_breaking_token(token: Seq<char>) -> bool {
    token == breaking_change_spaced() || token == breaking_change_hyphenated()
}

/// The literal `BREAKING CHANGE`, as characters.
pub fn breaking_change_chars() -> (r: Vec<char>)
    ensures
        r@ == breaking_change_spaced(),
{
    proof {
        reveal_strlit("BREAKING CHANGE");
    }
    let r = chars_of("BREAKING CHANGE");
    assert(r@ =~= breaking_change_spaced());
    r
}

impl Footer {
    /// Whether this footer announces a breaking change.
    pub fn is_breaking_change(&self) -> (r: bool)
        ensures
            r == is_breaking_token(self.token@),
    {
        proof {
            reveal_strlit("BREAKING-CHANGE");
        }
        let t = chars_of(self.token.as_str());
        let hyphenated = chars_of("BREAKING-CHANGE");
        assert(hyphenated@ =~= breaking_change_hyphenated());
        chars_equal(&t, &breaking_change_chars()) || chars_equal(&t, &hyphenated)
    }
}

impl Default for Footer {
    fn default() -> (r: Footer)
        ensures
            r.token@ == Seq::<char>::empty(),
            r.separator == Separator::Colon,
            r.content@ == Seq::<char>::empty(),
    {
        Footer { token: String::new(), separator: Separator::Colon, content: String::new() }
    }
}

/// The part of the codebase that a commit touches: the text between the parentheses.
#[derive(Clone, Debug, Eq, PartialEq)]
pub struct Scope {
    pub noun: String,
}

/// The description of a commit, the text after the header's separator.
pub struct Description {}

/// A commit message, decomposed.
#[derive(Debug, Eq, PartialEq)]
pub struct ConventionalCommit {
    pub commit_type: CommitType,
    pub scope: Option<Scope>,
    pub description: String,
    pub body: Option<String>,
    pub footers: Vec<Footer>,
    pub is_breaking_change: bool,
}

/// What a `ConventionalCommit` holds.
pub struct CommitView {
    pub commit_type: CommitTypeView,
    pub scope: Option<Seq<char>>,
    pub description: Seq<char>,
    pub body: Option<Seq<char>>,
    pub footers: Seq<FooterView>,
    pub is_breaking_change: bool,
}

pub open spec fn scope_view(s: Option<Scope>) -> Option<Seq<char>> {
    match s {
        Some(sc) => Some(sc.noun@),
        None => None,
    }
}

pub open spec fn opt_view(s: Option<String>) -> Option<Seq<char>> {
    match s {
        Some(t) => Some(t@),
        None => None,
    }
}

impl View for ConventionalCommit {
    type V = CommitView;

    open spec fn view(&self) -> CommitView {
        CommitView {
            commit_type: self.commit_type@,
            scope: scope_view(self.scope),
            description: self.description@,
            body: opt_view(self.body),
            footers: footer_views(self.footers@),
            is_breaking_change: self.is_breaking_change,
        }
    }
}

/// Whether any of `fs` announces a breaking change.
pub open spec fn any_breaking(fs: Seq<FooterView>) -> bool {
    exists|i: int| 0 <= i < fs.len() && is_breaking_token(#[trigger] fs[i].token)
}

pub open spec fn blank_line() -> Seq<char> {
    seq!['\n', '\n']
}

/// The header line: `type[(scope)][!]: description`.
pub open spec fn header_text(c: CommitView) -> Seq<char> {
    keyword(c.commit_type) + match c.scope {
        Some(n) => seq!['('] + n + seq![')'],
        None => Seq::empty(),
    } + if c.is_breaking_change {
        seq!['!']
    } else {
        Seq::empty()
    } + seq![':', ' '] + c.description
}

/// A footer line: `token<separator>content`.
pub open spec fn footer_text(f: FooterView) -> Seq<char> {
    f.token + separator_text(f.separator) + f.content
}

/// Each footer, each after a blank line.
pub open spec fn footers_text(fs: Seq<FooterView>) -> Seq<char>
    decreases fs.len(),
{
    if fs.len() == 0 {
        Seq::empty()
    } else {
        footers_text(fs.drop_last()) + blank_line() + footer_text(fs.last())
    }
}

/// The canonical text of a commit: the header, then the body and each footer, each
/// section after a blank line.
pub open spec fn render(c: CommitView) -> Seq<char> {
    header_text(c) + match c.body {
        Some(b) => blank_line() + b,
        None => Seq::empty(),
    } + footers_text(c.footers)
}

impl Default for ConventionalCommit {
    fn default() -> (r: ConventionalCommit)
        ensures
            r@ == (CommitView {
                commit_type: CommitTypeView::Feature,
                scope: None,
                description: Seq::empty(),
                body: None,
                footers: Seq::empty(),
                is_breaking_change: false,
            }),
    {
        let r = ConventionalCommit {
            commit_type: CommitType::Feature,
            scope: None,
            description: String::new(),
            body: None,
            footers: Vec::new(),
            is_breaking_change: false,
        };
        assert(r@.footers =~= Seq::<FooterView>::empty());
        r
    }
}

impl ConventionalCommit {
    /// The canonical text of this commit (see `render`).
    pub fn as_str(&mut self) -> (r: String)
        ensures
            *final(self) == *old(self),
            r@ == render(old(self)@),
    {
        let mut r = self.commit_type.to_text();
        match &self.scope {
            Some(sc) => {
                proof {
                    reveal_strlit("(");
                    reveal_strlit(")");
                }
                r.append("(");
                r.append(sc.noun.as_str());
                r.append(")");
            },
            None => {},
        }
        if self.is_breaking_change {
            proof {
                reveal_strlit("!");
            }
            r.append("!");
        }
        proof {
            reveal_strlit(": ");
            reveal_strlit("\n\n");
        }
        r.append(": ");
        r.append(self.description.as_str());
        assert(r@ =~= header_text(self@));
        match &self.body {
            Some(b) => {
                r.append("\n\n");
                r.append(b.as_str());
            },
            None => {},
        }
        let ghost head = r@;
        assert(head =~= header_text(self@) + match self@.body {
            Some(b) => blank_line() + b,
            None => Seq::empty(),
        });
        let mut i: usize = 0;
        while i < self.footers.len()
            invariant
                i <= self.footers.len(),
                r@ == head + footers_text(footer_views(self.footers@).subrange(0, i as int)),
            decreases self.footers.len() - i,
        {
            let f = &self.footers[i];
            let ghost before_r = r@;
            proof {
                reveal_strlit("\n\n");
            }
            r.append("\n\n");
            r.append(f.token.as_str());
            r.append(f.separator.as_text());
            r.append(f.content.as_str());
            let ghost fs = footer_views(self.footers@);
            assert(fs.subrange(0, i + 1).drop_last() =~= fs.subrange(0, i as int));
            assert(fs.subrange(0, i + 1).last() == self.footers@[i as int]@);
            assert(r@ =~= before_r + blank_line() + footer_text(f@));
            assert(footers_text(fs.subrange(0, i + 1)) == footers_text(fs.subrange(0, i as int))
                + blank_line() + footer_text(f@));
            assert(r@ =~= head + footers_text(fs.subrange(0, i + 1)));
            i += 1;
        }
        assert(footer_views(self.footers@).subrange(0, self.footers.len() as int)
            =~= footer_views(self.footers@));
        r
    }

    pub fn set_body(&mut self, body: String)
        ensures
            final(self)@ == (CommitView { body: Some(body@), ..old(self)@ }),
    {
        self.body = Some(body);
    }

    /// Appends each footer in turn (see `set_footer`).
    pub fn set_footers(&mut self, footers: Vec<Footer>)
        ensures
            final(self)@ == (CommitView {
                footers: old(self)@.footers + footer_views(footers@),
                is_breaking_change: old(self)@.is_breaking_change || any_breaking(
                    footer_views(footers@),
                ),
                ..old(self)@
            }),
    {
        let ghost start = self@;
        let mut i: usize = 0;
        while i < footers.len()
            invariant
                i <= footers.len(),
                self@ == (CommitView {
                    footers: start.footers + footer_views(footers@).subrange(0, i as int),
                    is_breaking_change: start.is_breaking_change || any_breaking(
                        footer_views(footers@).subrange(0, i as int),
                    ),
                    ..start
                }),
            decreases footers.len() - i,
        {
            let ghost before = footer_views(footers@).subrange(0, i as int);
            self.set_footer(footers[i].clone_footer());
            let ghost after = footer_views(footers@).subrange(0, i + 1);
            assert(after =~= before.push(footers@[i as int]@));
            assert(any_breaking(after) == (any_breaking(before) || is_breaking_token(
                footers@[i as int]@.token,
            ))) by {
                if is_breaking_token(footers@[i as int]@.token) {
                    assert(after[i as int] == footers@[i as int]@);
                }
                if any_breaking(before) {
                    let j = choose|j: int| 0 <= j < before.len() && is_breaking_token(
                        #[trigger] before[j].token,
                    );
                    assert(after[j] == before[j]);
                }
            }
            assert(self@.footers =~= start.footers + after);
            i += 1;
        }
        assert(footer_views(footers@).subrange(0, footers.len() as int) =~= footer_views(
            footers@,
        ));
    }

    pub fn set_commit_type(&mut self, commit_type: CommitType)
        ensures
            final(self)@ == (CommitView { commit_type: commit_type@, ..old(self)@ }),
    {
        self.commit_type = commit_type;
    }

    pub fn set_scope(&mut self, scope: Scope)
        ensures
            final(self)@ == (CommitView { scope: Some(scope.noun@), ..old(self)@ }),
    {
        self.scope = Some(scope);
    }

    pub fn set_description(&mut self, description: String)
        ensures
            final(self)@ == (CommitView { description: description@, ..old(self)@ }),
    {
        self.description = description;
    }

    pub fn set_breaking_change(&mut self, flag: bool)
        ensures
            final(self)@ == (CommitView { is_breaking_change: flag, ..old(self)@ }),
    {
        self.is_breaking_change = flag;
    }

    /// Appends a footer; a breaking-change footer marks the commit as breaking.
    pub fn set_footer(&mut self, footer: Footer)
        ensures
            final(self)@ == (CommitView {
                footers: old(self)@.footers.push(footer@),
                is_breaking_change: old(self)@.is_breaking_change || is_breaking_token(
                    footer@.token,
                ),
                ..old(self)@
            }),
    {
        if footer.is_breaking_change() {
            self.is_breaking_change = true;
        }
        let ghost old_footers = self.footers@;
        self.footers.push(footer);
        assert(footer_views(self.footers@) =~= footer_views(old_footers).push(footer@));
    }
}

impl Footer {
    /// A copy of this footer.
    pub fn clone_footer(&self) -> (r: Footer)
        ensures
            r@ == self@,
    {
        Footer {
            token: self.token.clone(),
            separator: self.separator,
            content: self.content.clone(),
        }
    }
}

} // verus!

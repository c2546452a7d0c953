//! Configuration of the interactive flow: the commit types offered and the prompts
//! asked, with the defaults, the merging of a configuration file over them, and the
//! validation of a file's prompts.
use vstd::prelude::*;
use crate::grammar::chars_of;
use crate::prompt::{prompt_of, Prompts};
use crate::text::chars_equal;

verus! {

/// A value that a table keys by name.
pub trait Named: View + Sized {
    spec fn key_of(v: Self::V) -> Seq<char>;

    fn name(&self) -> (r: &str)
        ensures
            r@ == Self::key_of(self@),
    ;
}

/// The views of a sequence of values.
pub open spec fn views<T: View>(s: Seq<T>) -> Seq<T::V> {
    s.map_values(|e: T| e@)
}

/// The index of the first entry from `i` on whose key is `k`, or the length when none is.
pub open spec fn index_of<T: Named>(s: Seq<T::V>, k: Seq<char>, i: int) -> int
    decreases s.len() - i,
{
    if i < 0 || i >= s.len() {
        s.len() as int
    } else if T::key_of(s[i]) == k {
        i
    } else {
        index_of::<T>(s, k, i + 1)
    }
}

/// `s` with `item` in place of the entry of the same key, or at the end when none has it.
pub open spec fn upsert<T: Named>(s: Seq<T::V>, item: T::V) -> Seq<T::V> {
    let i = index_of::<T>(s, T::key_of(item), 0);
    if i < s.len() {
        s.update(i, item)
    } else {
        s.push(item)
    }
}

/// `s` with each of `items` put in by `upsert`, in order.
pub open spec fn upsert_all<T: Named>(s: Seq<T::V>, items: Seq<T::V>) -> Seq<T::V>
    decreases items.len(),
{
    if items.len() == 0 {
        s
    } else {
        upsert::<T>(upsert_all::<T>(s, items.drop_last()), items.last())
    }
}

/// No two entries share a key.
pub open spec fn keys_unique<T: Named>(s: Seq<T::V>) -> bool {
    forall|i: int, j: int|
        0 <= i < s.len() && 0 <= j < s.len() && i != j ==> T::key_of(#[trigger] s[i])
            != T::key_of(#[trigger] s[j])
}

proof fn lemma_index_of<T: Named>(s: Seq<T::V>, k: Seq<char>, i: int)
    requires
        0 <= i <= s.len(),
    ensures
        i <= index_of::<T>(s, k, i) <= s.len(),
        index_of::<T>(s, k, i) < s.len() ==> T::key_of(s[index_of::<T>(s, k, i)]) == k,
        forall|j: int| i <= j < index_of::<T>(s, k, i) ==> T::key_of(#[trigger] s[j]) != k,
    decreases s.len() - i,
{
    if i < s.len() && T::key_of(s[i]) != k {
        lemma_index_of::<T>(s, k, i + 1);
    }
}

proof fn lemma_upsert_unique<T: Named>(s: Seq<T::V>, item: T::V)
    requires
        keys_unique::<T>(s),
    ensures
        keys_unique::<T>(upsert::<T>(s, item)),
{
    lemma_index_of::<T>(s, T::key_of(item), 0);
}

/// Entries kept in order of insertion, keyed by name.
#[derive(Debug, Clone)]
pub struct NamedTable<T> {
    entries: Vec<T>,
}

impl<T: Named> View for NamedTable<T> {
    type V = Seq<T::V>;

    closed spec fn view(&self) -> Seq<T::V> {
        views(self.entries@)
    }
}

impl<T: Named> NamedTable<T> {
    /// An empty table.
    pub fn new() -> (r: Self)
        ensures
            r@ == Seq::<T::V>::empty(),
    {
        let r = NamedTable { entries: Vec::new() };
        assert(r@ =~= Seq::<T::V>::empty());
        r
    }

    /// The number of entries.
    pub fn len(&self) -> (r: usize)
        ensures
            r == self@.len(),
    {
        self.entries.len()
    }

    /// The entries, in order of insertion.
    pub fn values(&self) -> (r: &Vec<T>)
        ensures
            views(r@) == self@,
    {
        &self.entries
    }

    fn position(&self, name: &str) -> (r: usize)
        ensures
            r == index_of::<T>(self@, name@, 0),
            r <= self@.len(),
    {
        proof {
            lemma_index_of::<T>(self@, name@, 0);
        }
        let k = chars_of(name);
        let mut i: usize = 0;
        while i < self.entries.len()
            invariant
                k@ == name@,
                i <= self.entries.len(),
                self@ == views(self.entries@),
                index_of::<T>(self@, name@, i as int) == index_of::<T>(self@, name@, 0),
            decreases self.entries.len() - i,
        {
            let n = chars_of(self.entries[i].name());
            assert(self@[i as int] == self.entries@[i as int]@);
            if chars_equal(&n, &k) {
                return i;
            }
            i += 1;
        }
        i
    }

    /// The entry named `name`, if any.
    pub fn get(&self, name: &str) -> (r: Option<&T>)
        ensures
            match r {
                Some(x) => index_of::<T>(self@, name@, 0) < self@.len() && x@ == self@[index_of::<
                    T,
                >(self@, name@, 0)],
                None => index_of::<T>(self@, name@, 0) == self@.len(),
            },
    {
        let i = self.position(name);
        assert(self@.len() == self.entries@.len());
        if i < self.entries.len() {
            assert(self@[i as int] == self.entries@[i as int]@);
            Some(&self.entries[i])
        } else {
            None
        }
    }

    /// Whether an entry is named `name`.
    pub fn contains_key(&self, name: &str) -> (r: bool)
        ensures
            r == (index_of::<T>(self@, name@, 0) < self@.len()),
    {
        assert(self@.len() == self.entries@.len());
        self.position(name) < self.entries.len()
    }

    /// Puts `item` in place of the entry of the same name, or at the end.
    pub fn insert(&mut self, item: T)
        ensures
            final(self)@ == upsert::<T>(old(self)@, item@),
            keys_unique::<T>(old(self)@) ==> keys_unique::<T>(final(self)@),
    {
        proof {
            if keys_unique::<T>(self@) {
                lemma_upsert_unique::<T>(self@, item@);
            }
        }
        let i = self.position(item.name());
        let ghost before = self.entries@;
        if i < self.entries.len() {
            self.entries.set(i, item);
            assert(views(self.entries@) =~= views(before).update(i as int, item@));
        } else {
            self.entries.push(item);
            assert(views(self.entries@) =~= views(before).push(item@));
        }
    }
}

/// A commit type offered to the user.
#[derive(Debug, Clone)]
pub struct CommitType {
    pub name: String,
    pub description: String,
    pub emoji: Option<String>,
}

/// What a configured commit type holds.
pub struct TypeEntry {
    pub name: Seq<char>,
    pub description: Seq<char>,
    pub emoji: Option<Seq<char>>,
}

pub open spec fn type_entry(name: Seq<char>, description: Seq<char>, emoji: Seq<char>) -> TypeEntry {
    TypeEntry { name, description, emoji: Some(emoji) }
}

impl View for CommitType {
    type V = TypeEntry;

    open spec fn view(&self) -> TypeEntry {
        TypeEntry {
            name: self.name@,
            description: self.description@,
            emoji: crate::conventional_commit::opt_view(self.emoji),
        }
    }
}

impl Named for CommitType {
    open spec fn key_of(v: TypeEntry) -> Seq<char> {
        v.name
    }

    fn name(&self) -> (r: &str) {
        self.name.as_str()
    }
}

impl CommitType {
    /// A copy of this commit type.
    pub fn duplicate(&self) -> (r: CommitType)
        ensures
            r@ == self@,
    {
        CommitType {
            name: self.name.clone(),
            description: self.description.clone(),
            emoji: match &self.emoji {
                Some(e) => Some(e.clone()),
                None => None,
            },
        }
    }

    fn make(name: &str, description: &str, emoji: &str) -> (r: CommitType)
        ensures
            r@ == type_entry(name@, description@, emoji@),
    {
        CommitType {
            name: String::from_str(name),
            description: String::from_str(description),
            emoji: Some(String::from_str(emoji)),
        }
    }
}

/// A prompt as a configuration file names it.
#[derive(Debug, Clone)]
pub struct TomlPrompt {
    pub name: String,
    pub order: usize,
}

/// What a configuration file holds.
#[derive(Debug, Clone)]
pub struct TomlConfig {
    pub commit_types: Option<Vec<CommitType>>,
    pub prompts: Vec<TomlPrompt>,
}

/// A prompt to ask, and when.
#[derive(Debug, Clone)]
pub struct ConfigPrompt {
    pub name: String,
    pub order: usize,
    pub kind: Prompts,
}

/// What a configured prompt holds.
pub struct PromptEntry {
    pub name: Seq<char>,
    pub order: usize,
    pub kind: Prompts,
}

impl View for ConfigPrompt {
    type V = PromptEntry;

    open spec fn view(&self) -> PromptEntry {
        PromptEntry { name: self.name@, order: self.order, kind: self.kind }
    }
}

impl Named for ConfigPrompt {
    open spec fn key_of(v: PromptEntry) -> Seq<char> {
        v.name
    }

    fn name(&self) -> (r: &str) {
        self.name.as_str()
    }
}

/// The prompt that a configuration file's prompt stands for.
pub open spec fn prompt_entry(p: TomlPrompt) -> PromptEntry {
    PromptEntry { name: p.name@, order: p.order, kind: prompt_of(p.name@) }
}

pub open spec fn prompt_entries(ps: Seq<TomlPrompt>) -> Seq<PromptEntry> {
    ps.map_values(|p: TomlPrompt| prompt_entry(p))
}

/// The commit types offered by default.
pub open spec fn default_types() -> Seq<TypeEntry> {
    seq![
        type_entry("feat"@, "A new feature"@, "🎁"@),
        type_entry("fix"@, "A bug fix"@, "🐛"@),
    ]
}

/// The further types of the conventional style.
pub open spec fn conventional_types() -> Seq<TypeEntry> {
    seq![
        type_entry("chore"@, "Other changes that don't modify src or test files"@, "🧹"@),
        type_entry("docs"@, "Documentation only changes"@, "📚"@),
        type_entry("style"@, "Changes that do not affect the meaning of the code"@, "💅"@),
        type_entry("perf"@, "A code change that improves performance"@, "⚡️"@),
        type_entry("refactor"@, "A code change that neither fixes a bug nor adds a feature"@, "♻️"@),
        type_entry("build"@, "Changes that affect the build system or external dependencies."@, "🛠️"@),
        type_entry("ci"@, "Changes to our CI configuration files and scripts."@, "⚙️"@),
        type_entry("revert"@, "Reverts a previous commit."@, "⏮️"@),
        type_entry("test"@, "Adding missing tests or correcting existing tests"@, "✅"@),
    ]
}

/// The prompts asked by default: the type, then the subject.
pub open spec fn default_prompts() -> Seq<PromptEntry> {
    seq![
        PromptEntry { name: "type"@, order: 0, kind: Prompts::Type },
        PromptEntry { name: "subject"@, order: 1, kind: Prompts::Subject },
    ]
}

/// The commit types and prompts of the interactive flow.
#[derive(Debug, Clone)]
pub struct Config {
    pub commit_types: NamedTable<CommitType>,
    pub prompts: NamedTable<ConfigPrompt>,
}

fn table_of_types(types: Vec<CommitType>) -> (r: NamedTable<CommitType>)
    ensures
        r@ == upsert_all::<CommitType>(Seq::empty(), views(types@)),
{
    let mut table = NamedTable::new();
    let mut i: usize = 0;
    while i < types.len()
        invariant
            i <= types.len(),
            table@ == upsert_all::<CommitType>(Seq::empty(), views(types@).subrange(0, i as int)),
        decreases types.len() - i,
    {
        let ghost before = views(types@).subrange(0, i as int);
        table.insert(types[i].duplicate());
        assert(views(types@).subrange(0, i + 1).drop_last() =~= before);
        i += 1;
    }
    assert(views(types@).subrange(0, types.len() as int) =~= views(types@));
    table
}

fn default_prompt_table() -> (r: NamedTable<ConfigPrompt>)
    ensures
        r@ == default_prompts(),
{
    proof {
        reveal_strlit("type");
        reveal_strlit("subject");
    }
    let mut table = NamedTable::new();
    let first = ConfigPrompt { name: String::from_str("type"), order: 0, kind: Prompts::Type };
    let ghost e0 = first@;
    assert(index_of::<ConfigPrompt>(Seq::empty(), e0.name, 0) == 0);
    table.insert(first);
    assert(table@ =~= seq![e0]);
    let second = ConfigPrompt { name: String::from_str("subject"), order: 1, kind: Prompts::Subject };
    let ghost e1 = second@;
    assert(e0.name.len() != e1.name.len());
    assert(index_of::<ConfigPrompt>(seq![e0], e1.name, 1) == 1);
    assert(index_of::<ConfigPrompt>(seq![e0], e1.name, 0) == 1);
    table.insert(second);
    assert(table@ =~= default_prompts());
    table
}

impl Config {
    /// The defaults: the commit types `feat` and `fix`, and the prompts for the type and
    /// the subject.
    pub fn new() -> (r: Config)
        ensures
            r.commit_types@ == upsert_all::<CommitType>(Seq::empty(), default_types()),
            r.prompts@ == default_prompts(),
    {
        let types = vec![
        CommitType::make("feat", "A new feature", "🎁"),
        CommitType::make("fix", "A bug fix", "🐛"),
        ];
        assert(views(types@) =~= default_types());
        Config { commit_types: table_of_types(types), prompts: default_prompt_table() }
    }

    /// The defaults with the further commit types of the conventional style.
    pub fn with_conventional_types() -> (r: Config)
        ensures
            r.commit_types@ == upsert_all::<CommitType>(
                Seq::empty(),
                default_types() + conventional_types(),
            ),
            r.prompts@ == default_prompts(),
    {
        let types = vec![
        CommitType::make("feat", "A new feature", "🎁"),
        CommitType::make("fix", "A bug fix", "🐛"),
        CommitType::make("chore", "Other changes that don't modify src or test files", "🧹"),
        CommitType::make("docs", "Documentation only changes", "📚"),
        CommitType::make("style", "Changes that do not affect the meaning of the code", "💅"),
        CommitType::make("perf", "A code change that improves performance", "⚡️"),
        CommitType::make("refactor", "A code change that neither fixes a bug nor adds a feature", "♻️"),
        CommitType::make("build", "Changes that affect the build system or external dependencies.", "🛠️"),
        CommitType::make("ci", "Changes to our CI configuration files and scripts.", "⚙️"),
        CommitType::make("revert", "Reverts a previous commit.", "⏮️"),
        CommitType::make("test", "Adding missing tests or correcting existing tests", "✅"),
        ];
        assert(views(types@) =~= default_types() + conventional_types());
        Config { commit_types: table_of_types(types), prompts: default_prompt_table() }
    }

    /// Puts each commit type of `config` in place of the one of the same name, or adds it.
    pub fn merge_commit_types(&mut self, config: TomlConfig)
        ensures
            final(self).commit_types@ == upsert_all::<CommitType>(
                old(self).commit_types@,
                match config.commit_types {
                    Some(v) => views(v@),
                    None => Seq::empty(),
                },
            ),
            final(self).prompts@ == old(self).prompts@,
    {
        if let Some(commit_types) = config.commit_types {
            let ghost start = self.commit_types@;
            let mut i: usize = 0;
            while i < commit_types.len()
                invariant
                    i <= commit_types.len(),
                    self.prompts@ == old(self).prompts@,
                    start == old(self).commit_types@,
                    self.commit_types@ == upsert_all::<CommitType>(
                        start,
                        views(commit_types@).subrange(0, i as int),
                    ),
                decreases commit_types.len() - i,
            {
                let ghost before = views(commit_types@).subrange(0, i as int);
                self.commit_types.insert(commit_types[i].duplicate());
                assert(views(commit_types@).subrange(0, i + 1).drop_last() =~= before);
                i += 1;
            }
            assert(views(commit_types@).subrange(0, commit_types.len() as int) =~= views(
                commit_types@,
            ));
        }
    }

    /// Puts a prompt for each prompt of `config` in place of the one of the same name, or
    /// adds it; its kind is the prompt that its name denotes.
    pub fn merge_prompts(&mut self, config: TomlConfig)
        ensures
            final(self).prompts@ == upsert_all::<ConfigPrompt>(
                old(self).prompts@,
                prompt_entries(config.prompts@),
            ),
            final(self).commit_types@ == old(self).commit_types@,
    {
        let prompts = config.prompts;
        let ghost start = self.prompts@;
        let mut i: usize = 0;
        while i < prompts.len()
            invariant
                i <= prompts.len(),
                self.commit_types@ == old(self).commit_types@,
                start == old(self).prompts@,
                self.prompts@ == upsert_all::<ConfigPrompt>(
                    start,
                    prompt_entries(prompts@).subrange(0, i as int),
                ),
            decreases prompts.len() - i,
        {
            let ghost before = prompt_entries(prompts@).subrange(0, i as int);
            let p = &prompts[i];
            let entry = ConfigPrompt {
                name: p.name.clone(),
                order: p.order,
                kind: Prompts::from_name(p.name.as_str()),
            };
            assert(entry@ == prompt_entry(prompts@[i as int]));
            self.prompts.insert(entry);
            assert(prompt_entries(prompts@).subrange(0, i + 1).drop_last() =~= before);
            i += 1;
        }
        assert(prompt_entries(prompts@).subrange(0, prompts.len() as int) =~= prompt_entries(
            prompts@,
        ));
    }
}

/// Why a configuration file's prompts were refused.
#[derive(Debug, Clone, PartialEq, Eq)]
pub enum ValidationError {
    DuplicatePrompts { prompt: String },
    DuplicateOrderIndex { prompt: String, index: usize, existing_prompt: String },
    InvalidPrompt { prompt: String },
}

/// What a validation error says.
pub enum ValidationErrorView {
    DuplicatePrompts { prompt: Seq<char> },
    DuplicateOrderIndex { prompt: Seq<char>, index: usize, existing_prompt: Seq<char> },
    InvalidPrompt { prompt: Seq<char> },
}

impl View for ValidationError {
    type V = ValidationErrorView;

    open spec fn view(&self) -> ValidationErrorView {
        match self {
            ValidationError::DuplicatePrompts { prompt } => ValidationErrorView::DuplicatePrompts {
                prompt: prompt@,
            },
            ValidationError::DuplicateOrderIndex { prompt, index, existing_prompt } =>
                ValidationErrorView::DuplicateOrderIndex {
                prompt: prompt@,
                index: *index,
                existing_prompt: existing_prompt@,
            },
            ValidationError::InvalidPrompt { prompt } => ValidationErrorView::InvalidPrompt {
                prompt: prompt@,
            },
        }
    }
}

/// The first prompt before index `i` with name `n`, or `i` when none is.
pub open spec fn first_named(ps: Seq<TomlPrompt>, n: Seq<char>, j: int, i: int) -> int
    decreases i - j,
{
    if j < 0 || j >= i {
        i
    } else if ps[j].name@ == n {
        j
    } else {
        first_named(ps, n, j + 1, i)
    }
}

/// The first prompt before index `i` with order `o`, or `i` when none is.
pub open spec fn first_ordered(ps: Seq<TomlPrompt>, o: usize, j: int, i: int) -> int
    decreases i - j,
{
    if j < 0 || j >= i {
        i
    } else if ps[j].order == o {
        j
    } else {
        first_ordered(ps, o, j + 1, i)
    }
}

/// The verdict on the prompts from index `i` on: the first prompt whose name an earlier
/// prompt has, or else whose order an earlier prompt has, is refused.
pub open spec fn validate_from(ps: Seq<TomlPrompt>, i: int) -> Result<(), ValidationErrorView>
    decreases ps.len() - i,
{
    if i < 0 || i >= ps.len() {
        Ok(())
    } else if first_named(ps, ps[i].name@, 0, i) < i {
        Err(ValidationErrorView::DuplicatePrompts { prompt: ps[i].name@ })
    } else if first_ordered(ps, ps[i].order, 0, i) < i {
        Err(
            ValidationErrorView::DuplicateOrderIndex {
                prompt: ps[i].name@,
                index: ps[i].order,
                existing_prompt: ps[first_ordered(ps, ps[i].order, 0, i)].name@,
            },
        )
    } else {
        validate_from(ps, i + 1)
    }
}

/// Checks that no two prompts of `cfg` share a name or an order (see `validate_from`).
pub fn validate_config(cfg: TomlConfig) -> (r: Result<(), ValidationError>)
    ensures
        match r {
            Ok(_) => validate_from(cfg.prompts@, 0) == Ok::<(), ValidationErrorView>(()),
            Err(e) => validate_from(cfg.prompts@, 0) == Err::<(), ValidationErrorView>(e@),
        },
{
    let ps = &cfg.prompts;
    let mut i: usize = 0;
    while i < ps.len()
        invariant
            ps@ == cfg.prompts@,
            i <= ps.len(),
            validate_from(ps@, i as int) == validate_from(ps@, 0),
        decreases ps.len() - i,
    {
        let name = chars_of(ps[i].name.as_str());
        let mut j: usize = 0;
        while j < i
            invariant
                ps@ == cfg.prompts@,
                j <= i < ps.len(),
                name@ == ps@[i as int].name@,
                validate_from(ps@, i as int) == validate_from(ps@, 0),
                first_named(ps@, name@, j as int, i as int) == first_named(ps@, name@, 0, i as int),
            decreases i - j,
        {
            let other = chars_of(ps[j].name.as_str());
            if chars_equal(&other, &name) {
                assert(first_named(ps@, name@, 0, i as int) == j);
                let prompt = ps[i].name.clone();
                assert(validate_from(ps@, i as int) == Err::<(), ValidationErrorView>(
                    ValidationErrorView::DuplicatePrompts { prompt: prompt@ },
                ));
                let e = ValidationError::DuplicatePrompts { prompt };
                assert(e@ == ValidationErrorView::DuplicatePrompts { prompt: ps@[i as int].name@ });
                assert(validate_from(cfg.prompts@, 0) == Err::<(), ValidationErrorView>(e@));
                return Err(e);
            }
            j += 1;
        }
        let mut j: usize = 0;
        while j < i
            invariant
                ps@ == cfg.prompts@,
                j <= i < ps.len(),
                name@ == ps@[i as int].name@,
                validate_from(ps@, i as int) == validate_from(ps@, 0),
                first_named(ps@, name@, 0, i as int) == i,
                first_ordered(ps@, ps@[i as int].order, j as int, i as int) == first_ordered(
                    ps@,
                    ps@[i as int].order,
                    0,
                    i as int,
                ),
            decreases i - j,
        {
            if ps[j].order == ps[i].order {
                assert(first_named(ps@, name@, i as int, i as int) == i);
                assert(first_ordered(ps@, ps@[i as int].order, 0, i as int) == j);
                let prompt = ps[i].name.clone();
                let existing_prompt = ps[j].name.clone();
                let e = ValidationError::DuplicateOrderIndex {
                    prompt,
                    index: ps[i].order,
                    existing_prompt,
                };
                assert(validate_from(ps@, i as int) == Err::<(), ValidationErrorView>(e@));
                return Err(e);
            }
            j += 1;
        }
        assert(first_named(ps@, name@, i as int, i as int) == i);
        assert(first_ordered(ps@, ps@[i as int].order, i as int, i as int) == i);
        assert(validate_from(ps@, i as int) == validate_from(ps@, i + 1));
        i += 1;
    }
    Ok(())
}

} // verus!

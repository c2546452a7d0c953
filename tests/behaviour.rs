use cc_scanner::commit::checker::{parse_commit as check_commit, INVALID_FOOTER, INVALID_HEADER};
use cc_scanner::commit::writer::{check_staged, commit_outcome, WriteErrorKind, NO_STAGED_CHANGES};
use cc_scanner::config::{Config, TomlConfig, TomlPrompt};
use cc_scanner::conventional_commit::{
    CommitType, ConventionalCommit, Footer, Scope, Separator,
};
use cc_scanner::errors::ParseErrorKind;
use cc_scanner::gh_cli::{closing_footers, Issue};
use cc_scanner::grammar::Rule;
use cc_scanner::prompt::Prompts;
use cc_scanner::{
    parse_body, parse_commit, parse_commit_type, parse_description, parse_footer, parse_footers,
    parse_scope,
};

fn footer(token: &str, separator: Separator, content: &str) -> Footer {
    Footer {
        token: token.to_string(),
        separator,
        content: content.to_string(),
    }
}

#[test]
fn shape_with_scope_and_indicator_yields_each_part() {
    let commit = parse_commit("doc(readme)!: explain setup").unwrap();
    assert_eq!(commit.commit_type, CommitType::Doc);
    assert_eq!(commit.scope, Some(Scope { noun: "readme".to_string() }));
    assert_eq!(commit.description, "explain setup");
    assert!(commit.is_breaking_change);
}

#[test]
fn invalid_commit_type_is_classified() {
    let err = parse_commit("@: x").unwrap_err();
    assert_eq!(err.kind, ParseErrorKind::InvalidCommitType);
    assert_eq!(err.inner.offset, 0);
}

#[test]
fn missing_space_after_colon_is_a_separator_error() {
    let err = parse_commit("feat:hello").unwrap_err();
    assert_eq!(err.kind, ParseErrorKind::InvalidTokenSeparator);
    assert_eq!(err.inner.offset, 4);
    assert_eq!(
        err.inner.expected,
        vec![Rule::Scope, Rule::BreakingChangeIndicator, Rule::ColonSeparator]
    );
}

#[test]
fn empty_description_is_a_description_error() {
    let err = parse_commit("feat: ").unwrap_err();
    assert_eq!(err.kind, ParseErrorKind::InvalidDescription);
    assert_eq!(err.inner.offset, 6);
}

#[test]
fn footer_without_space_after_colon_is_a_footer_error() {
    let err = parse_footer("approved-by:Iroquois Pliskin").unwrap_err();
    assert_eq!(err.kind, ParseErrorKind::InvalidFooter);
    assert_eq!(err.inner.offset, 11);
}

#[test]
fn empty_scope_is_a_scope_noun_error() {
    assert_eq!(parse_scope("").unwrap_err().kind, ParseErrorKind::InvalidScopeNoun);
    assert_eq!(parse_commit("feat(): x").unwrap_err().kind, ParseErrorKind::InvalidScopeNoun);
}

#[test]
fn unclosed_scope_is_reported_as_other() {
    let err = parse_commit("feat(core: x").unwrap_err();
    assert_eq!(err.kind, ParseErrorKind::Other);
    assert_eq!(err.inner.expected, vec![Rule::Scope]);
}

#[test]
fn more_than_one_blank_line_is_a_body_error() {
    let err = parse_commit("feat: x\n\n\nbody").unwrap_err();
    assert_eq!(err.kind, ParseErrorKind::InvalidBody);
    assert_eq!(err.inner.offset, 9);
}

#[test]
fn diagnostic_gives_line_column_and_snippet() {
    let err = parse_commit("feat: x\nbody").unwrap_err();
    assert_eq!(err.kind, ParseErrorKind::Other);
    assert_eq!(err.inner.offset, 8);
    assert_eq!(err.inner.line, 2);
    assert_eq!(err.inner.column, 1);
    assert_eq!(err.inner.snippet, "body");
    assert_eq!(err.inner.expected, vec![Rule::Eoi]);
}

#[test]
fn content_after_footers_is_a_footer_error() {
    let err = parse_commit("feat: x\n\nwitness: Ash\n\nplain words").unwrap_err();
    assert_eq!(err.kind, ParseErrorKind::InvalidFooter);
}

#[test]
fn sub_parsers_take_the_whole_input() {
    assert_eq!(parse_commit_type("feat").unwrap(), CommitType::Feature);
    assert_eq!(parse_commit_type("feat: add").unwrap_err().kind, ParseErrorKind::Other);
    assert_eq!(parse_scope("a(b").unwrap_err().kind, ParseErrorKind::Other);
    assert_eq!(parse_description("one\ntwo").unwrap_err().inner.offset, 3);
    assert_eq!(parse_body("").unwrap_err().kind, ParseErrorKind::InvalidBody);
}

#[test]
fn commit_type_matching_ignores_ascii_case() {
    assert_eq!(CommitType::from("FEAT"), CommitType::Feature);
    assert_eq!(CommitType::from("Test"), CommitType::Test);
    assert_eq!(CommitType::from("perf"), CommitType::Perf);
    assert_eq!(CommitType::from("Fix"), CommitType::Custom("fix".to_string()));
    assert_eq!(parse_commit("FEAT: x").unwrap().commit_type, CommitType::Feature);
}

#[test]
fn variants_list_every_type() {
    let all = CommitType::variants();
    assert_eq!(all.len(), 12);
    assert_eq!(all[0], CommitType::Feature);
    assert_eq!(all[11], CommitType::Custom(String::new()));
}

#[test]
fn separators_by_spelling() {
    assert_eq!(Separator::from(": "), Separator::Colon);
    assert_eq!(Separator::from(" #"), Separator::Pound);
    assert_eq!(Separator::from(":\n"), Separator::ColonWithNewline);
    assert_eq!(Separator::from("??"), Separator::Colon);
    assert_eq!(Separator::default(), Separator::Colon);
}

#[test]
fn two_paragraphs_join_with_one_blank_line() {
    let commit = parse_commit("fix: x\n\nfirst part\n\nsecond part").unwrap();
    assert_eq!(commit.body, Some("first part\n\nsecond part".to_string()));
}

#[test]
fn breaking_footer_marks_the_commit() {
    let commit = parse_commit("chore: x\n\nBREAKING CHANGE: gone").unwrap();
    assert!(commit.is_breaking_change);
    assert_eq!(commit.footers, vec![footer("BREAKING CHANGE", Separator::Colon, "gone")]);
    let commit = parse_commit("chore: x\n\nbreaking-change: gone").unwrap();
    assert!(!commit.is_breaking_change);
}

#[test]
fn footers_with_one_token_stay_in_order() {
    let footers = parse_footers("witness: Ash\nwitness: Brock\nwitness: Ash").unwrap();
    assert_eq!(
        footers,
        vec![
            footer("witness", Separator::Colon, "Ash"),
            footer("witness", Separator::Colon, "Brock"),
            footer("witness", Separator::Colon, "Ash"),
        ]
    );
}

#[test]
fn multi_line_footer_value() {
    let commit = parse_commit("feat: x\n\nNote:\nline one\nline two\nAcked-by: Z").unwrap();
    assert_eq!(
        commit.footers,
        vec![
            footer("Note", Separator::ColonWithNewline, "line one\nline two"),
            footer("Acked-by", Separator::Colon, "Z"),
        ]
    );
}

#[test]
fn footer_content_is_trimmed() {
    let f = parse_footer("witness:   Ash  ").unwrap();
    assert_eq!(f.content, "Ash");
}

#[test]
fn trailing_line_feeds_are_accepted() {
    let commit = parse_commit("feat: x\n\n").unwrap();
    assert_eq!(commit.description, "x");
    assert_eq!(commit.body, None);
}

#[test]
fn rendering_is_canonical() {
    let mut commit = parse_commit(
        "feat(node): update\n\nsome body\n\nwitness # Ash\n\nBREAKING-CHANGE: moved",
    )
    .unwrap();
    assert_eq!(
        commit.as_str(),
        "feat(node)!: update\n\nsome body\n\nwitness #Ash\n\nBREAKING-CHANGE: moved"
    );
}

#[test]
fn rendering_parses_back_to_the_same_commit() {
    let inputs = [
        "test: add integration tests",
        "FEAT(ui)!: new look\n\nbody line one\nline two\n\nmore\n\nNote:\nsee\nthis\n\nwitness # Ash",
        "evolution: mewtwo\n\nAcked-by: someone\n",
    ];
    for input in inputs {
        let mut commit = parse_commit(input).unwrap();
        let text = commit.as_str();
        assert_eq!(parse_commit(&text).unwrap(), commit);
    }
}

#[test]
fn setters_keep_breaking_change_once_set() {
    let mut commit = ConventionalCommit::default();
    commit.set_footer(footer("BREAKING-CHANGE", Separator::Colon, "x"));
    commit.set_footers(vec![footer("witness", Separator::Colon, "y")]);
    assert!(commit.is_breaking_change);
    assert_eq!(commit.footers.len(), 2);
    commit.set_description("d".to_string());
    commit.set_scope(Scope { noun: "s".to_string() });
    commit.set_body("b".to_string());
    assert_eq!(commit.as_str(), "feat(s)!: d\n\nb\n\nBREAKING-CHANGE: x\n\nwitness: y");
}

#[test]
fn footer_breaking_tokens_are_exact() {
    assert!(footer("BREAKING CHANGE", Separator::Colon, "").is_breaking_change());
    assert!(footer("BREAKING-CHANGE", Separator::Colon, "").is_breaking_change());
    assert!(!footer("Breaking Change", Separator::Colon, "").is_breaking_change());
}

#[test]
fn checker_messages() {
    assert_eq!(check_commit("hi".to_string()), Err(INVALID_HEADER.to_string()));
    assert_eq!(
        check_commit("feat: x\n\nA: b\nplain text".to_string()),
        Err(INVALID_FOOTER.to_string())
    );
    assert_eq!(check_commit("feat: x\n\nbody\n\nA: b".to_string()), Ok(()));
}

#[test]
fn writer_decisions() {
    let err = check_staged(false).unwrap_err();
    assert_eq!(err.kind, WriteErrorKind::InvalidInput);
    assert_eq!(err.message, NO_STAGED_CHANGES);
    assert!(check_staged(true).is_ok());
    let err = commit_outcome(false, "boom".to_string()).unwrap_err();
    assert_eq!(err.kind, WriteErrorKind::Other);
    assert_eq!(err.message, "boom");
    assert!(commit_outcome(true, String::new()).is_ok());
}

#[test]
fn closing_footer_lists_issues() {
    let issues = vec![
        Issue { title: "a".to_string(), number: 1 },
        Issue { title: "b".to_string(), number: 230 },
    ];
    assert_eq!(
        closing_footers(&issues),
        vec![footer("closes", Separator::Colon, "#1, #230")]
    );
    assert!(closing_footers(&vec![]).is_empty());
    assert_eq!(issues[1].label(), "b");
}

#[test]
fn prompt_names() {
    assert_eq!(Prompts::from("Scope"), Prompts::Scope);
    assert_eq!(Prompts::from("IS_BREAKING"), Prompts::IsBreaking);
    assert_eq!(Prompts::from("unknown"), Prompts::Type);
    assert_eq!(Prompts::Footers.name(), "footers");
}

#[test]
fn merged_prompt_kind_follows_its_name() {
    let mut config = Config::new();
    config.merge_prompts(TomlConfig {
        commit_types: None,
        prompts: vec![TomlPrompt { name: "Footers".to_string(), order: 4 }],
    });
    let p = config.prompts.get("Footers").unwrap();
    assert_eq!(p.kind, Prompts::Footers);
    assert_eq!(config.prompts.len(), 3);
    assert!(config.prompts.contains_key("type"));
    assert!(config.commit_types.get("docs").is_none());
}

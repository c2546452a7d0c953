use cc_scanner::{
    conventional_commit::{CommitType, ConventionalCommit, Footer, Scope, Separator},
    parse_commit,
};

#[test]
fn commit_type_prefix_with_description() {
    let commit = "test: add integration tests";

    assert_eq!(
        parse_commit(commit).unwrap(),
        ConventionalCommit {
            commit_type: CommitType::from("test"),
            scope: None,
            description: "add integration tests".to_string(),
            body: None,
            footers: vec![],
            is_breaking_change: false,
        }
    )
}

#[test]
fn other_commit_type_prefix() {
    let commit = "evolution: mewtwo";

    assert_eq!(
        parse_commit(commit).unwrap(),
        ConventionalCommit {
            commit_type: CommitType::from("evolution"),
            scope: None,
            description: "mewtwo".to_string(),
            body: None,
            footers: vec![],
            is_breaking_change: false,
        }
    )
}

#[test]
fn commit_type_prefix_with_scope() {
    let commit = "test(lib): add integration tests";

    assert_eq!(
        parse_commit(commit).unwrap(),
        ConventionalCommit {
            commit_type: CommitType::from("test"),
            scope: Some(Scope {
                noun: "lib".to_string()
            }),
            description: "add integration tests".to_string(),
            body: None,
            footers: vec![],
            is_breaking_change: false,
        }
    )
}

#[test]
fn commit_type_prefix_with_scope_and_optional_breaking_change_indicator() {
    let commit = "feat(node)!: upgrade @hapijs/hapi to v20";

    assert_eq!(
        parse_commit(commit).unwrap(),
        ConventionalCommit {
            commit_type: CommitType::from("feat"),
            scope: Some(Scope {
                noun: "node".to_string()
            }),
            description: "upgrade @hapijs/hapi to v20".to_string(),
            body: None,
            footers: vec![],
            is_breaking_change: true,
        }
    )
}

#[test]
fn optional_body() {
    let commit = "feat: a new feature\n\nsome body";

    assert_eq!(
        parse_commit(commit).unwrap(),
        ConventionalCommit {
            commit_type: CommitType::from("feat"),
            scope: None,
            description: "a new feature".to_string(),
            body: Some("some body".to_string()),
            footers: vec![],
            is_breaking_change: false,
        }
    )
}

#[test]
fn multiple_optional_bodies() {
    let commit = "feat: a new feature\n\nsome body\n\nmore body";

    assert_eq!(
        parse_commit(commit).unwrap(),
        ConventionalCommit {
            commit_type: CommitType::from("feat"),
            scope: None,
            description: "a new feature".to_string(),
            body: Some("some body\n\nmore body".to_string()),
            footers: vec![],
            is_breaking_change: false,
        }
    )
}

#[test]
fn optional_footer() {
    let commit = "feat: a new feature\n\nwitness: someone";

    assert_eq!(
        parse_commit(commit).unwrap(),
        ConventionalCommit {
            commit_type: CommitType::from("feat"),
            scope: None,
            description: "a new feature".to_string(),
            body: None,
            footers: vec![Footer {
                token: "witness".to_string(),
                separator: Separator::from(": "),
                content: "someone".to_string(),
            }],
            is_breaking_change: false,
        }
    )
}

#[test]
fn multiple_optional_footers() {
    let commit = "feat: a new feature\n\nwitness: Ash\n\nwitness: Brock";

    assert_eq!(
        parse_commit(commit).unwrap(),
        ConventionalCommit {
            commit_type: CommitType::from("feat"),
            scope: None,
            description: "a new feature".to_string(),
            body: None,
            footers: vec![
                Footer {
                    token: "witness".to_string(),
                    separator: Separator::from(": "),
                    content: "Ash".to_string(),
                },
                Footer {
                    token: "witness".to_string(),
                    separator: Separator::from(": "),
                    content: "Brock".to_string(),
                }
            ],
            is_breaking_change: false,
        }
    )
}

#[test]
fn optional_footers_with_pound_separator() {
    let commit = "feat: a new feature\n\nwitness # Ash";

    assert_eq!(
        parse_commit(commit).unwrap(),
        ConventionalCommit {
            commit_type: CommitType::from("feat"),
            scope: None,
            description: "a new feature".to_string(),
            body: None,
            footers: vec![Footer {
                token: "witness".to_string(),
                separator: Separator::from(" #"),
                content: "Ash".to_string(),
            },],
            is_breaking_change: false,
        }
    )
}

#[test]
fn footer_token_whitespace_separator() {
    let commit = "feat: a new feature\n\nPeer-reviewed-by: someone";

    assert_eq!(
        parse_commit(commit).unwrap(),
        ConventionalCommit {
            commit_type: CommitType::from("feat"),
            scope: None,
            description: "a new feature".to_string(),
            body: None,
            footers: vec![Footer {
                token: "Peer-reviewed-by".to_string(),
                separator: Separator::from(": "),
                content: "someone".to_string(),
            }],
            is_breaking_change: false,
        }
    )
}

#[test]
fn breaking_change_token_dash_separated_variant() {
    let commit = "feat: upgrade @hapijs/hapi to v20\n\nBREAKING-CHANGE: In v20 @hapijs/joi has been moved out as a standalone package.";

    assert_eq!(
        parse_commit(commit).unwrap(),
        ConventionalCommit {
            commit_type: CommitType::from("feat"),
            scope: None,
            description: "upgrade @hapijs/hapi to v20".to_string(),
            body: None,
            footers: vec![Footer {
                token: "BREAKING-CHANGE".to_string(),
                separator: Separator::from(": "),
                content: "In v20 @hapijs/joi has been moved out as a standalone package."
                    .to_string(),
            }],
            is_breaking_change: true,
        }
    )
}

#[test]
fn breaking_change_token_whitespace_separated_variant() {
    let commit = "feat: upgrade @hapijs/hapi to v20\n\nBREAKING CHANGE: In v20 @hapijs/joi has been moved out as a standalone package.";

    assert_eq!(
        parse_commit(commit).unwrap(),
        ConventionalCommit {
            commit_type: CommitType::from("feat"),
            scope: None,
            description: "upgrade @hapijs/hapi to v20".to_string(),
            body: None,
            footers: vec![Footer {
                token: "BREAKING CHANGE".to_string(),
                separator: Separator::from(": "),
                content: "In v20 @hapijs/joi has been moved out as a standalone package."
                    .to_string(),
            }],
            is_breaking_change: true,
        }
    )
}

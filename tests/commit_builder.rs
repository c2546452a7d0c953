use cc_scanner::commit::builder::CommitBuilder as RepeatingBuilder;
use cc_scanner::commit::CommitBuilder;

#[test]
fn commit_test_add_type() {
    let commit = CommitBuilder::new().add_type("feat".to_string()).build();

    assert_eq!(commit, "feat");
}
#[test]
fn commit_test_add_scope() {
    let commit = CommitBuilder::new()
        .add_type("feat".to_string())
        .add_scope("commit".to_string())
        .build();

    assert_eq!(commit, "feat(commit)");
}
#[test]
fn commit_test_add_subject() {
    let commit = CommitBuilder::new()
        .add_type("feat".to_string())
        .add_scope("commit".to_string())
        .add_subject("add commit builder".to_string())
        .build();

    assert_eq!(commit, "feat(commit): add commit builder");
}
#[test]
fn commit_test_add_body() {
    let commit = CommitBuilder::new()
        .add_type("feat".to_string())
        .add_scope("commit".to_string())
        .add_subject("add commit builder".to_string())
        .add_body("add commit builder".to_string())
        .build();

    assert_eq!(
        commit,
        "feat(commit): add commit builder\n\nadd commit builder"
    );
}
#[test]
fn commit_test_add_breaking_change() {
    let commit = CommitBuilder::new()
        .add_type("feat".to_string())
        .add_scope("commit".to_string())
        .add_subject("add commit builder".to_string())
        .add_body("add commit builder".to_string())
        .add_breaking_change("add commit builder".to_string())
        .build();

    assert_eq!(
        commit,
        "feat(commit)!: add commit builder\n\nadd commit builder\n\nBREAKING CHANGE: add commit builder"
    );
}
#[test]
fn commit_test_add_issues() {
    let commit = CommitBuilder::new()
        .add_type("feat".to_string())
        .add_scope("commit".to_string())
        .add_subject("add commit builder".to_string())
        .add_body("add commit builder".to_string())
        .add_breaking_change("add commit builder".to_string())
        .add_issues("1,2,3".to_string())
        .build();

    assert_eq!(
        commit,
        "feat(commit)!: add commit builder\n\nadd commit builder\n\ncloses #1, #2, #3\n\nBREAKING CHANGE: add commit builder"
    );
}

#[test]
fn builder_test_add_type() {
    let commit = RepeatingBuilder::new().add_type("feat".to_string()).build();

    assert_eq!(commit, "feat");
}
#[test]
fn builder_test_add_scope() {
    let commit = RepeatingBuilder::new()
        .add_type("feat".to_string())
        .add_scope("commit".to_string())
        .build();

    assert_eq!(commit, "feat(commit)");
}
#[test]
fn builder_test_add_subject() {
    let commit = RepeatingBuilder::new()
        .add_type("feat".to_string())
        .add_scope("commit".to_string())
        .add_subject("add commit builder".to_string())
        .build();

    assert_eq!(commit, "feat(commit): add commit builder");
}
#[test]
fn builder_test_add_body() {
    let commit = RepeatingBuilder::new()
        .add_type("feat".to_string())
        .add_scope("commit".to_string())
        .add_subject("add commit builder".to_string())
        .add_body("add commit builder".to_string())
        .build();

    assert_eq!(
        commit,
        "feat(commit): add commit builder\n\nadd commit builder"
    );
}
#[test]
fn builder_test_add_breaking_change() {
    let commit = RepeatingBuilder::new()
        .add_type("feat".to_string())
        .add_scope("commit".to_string())
        .add_subject("add commit builder".to_string())
        .add_body("add commit builder".to_string())
        .add_breaking_change("add commit builder".to_string())
        .build();

    assert_eq!(
        commit,
        "feat(commit)!: add commit builder\n\nadd commit builder\n\nBREAKING CHANGE: add commit builder"
    );
}
#[test]
fn builder_test_add_issues() {
    let commit = RepeatingBuilder::new()
        .add_type("feat".to_string())
        .add_scope("commit".to_string())
        .add_subject("add commit builder".to_string())
        .add_body("add commit builder".to_string())
        .add_breaking_change("add commit builder".to_string())
        .add_issues("1,2,3".to_string())
        .build();

    assert_eq!(
        commit,
        "feat(commit)!: add commit builder\n\nadd commit builder\n\ncloses #1, closes #2, closes #3\n\nBREAKING CHANGE: add commit builder"
    );
}

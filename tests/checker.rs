use cc_scanner::commit::checker::parse_commit;

#[test]
fn test_type_prefix_must_exist() {
    // Test that a type prefix like "fix" or "feat" must exist
    let commit = String::from("hi");

    assert!(parse_commit(commit).is_err());
}

#[test]
fn test_optional_scope() {
    // Test that a scope may be optionally provided after a type
    let commit = String::from("feat(scope): hello world");

    assert!(parse_commit(commit).is_ok());
}

#[test]
fn test_required_colon_and_space() {
    // Test that a terminal colon and space must exist after the type or optional scope
    let commit = String::from("feat:hello world");
    assert!(parse_commit(commit).is_err());
}

#[test]
fn test_description_must_exist() {
    // Test that a description must immediately follow the colon and space
    let commit = String::from("feat: ");
    assert!(parse_commit(commit).is_err());
}

#[test]
fn test_optional_longer_commit_body() {
    // Test that a longer commit body may be provided
    let commit = String::from(
        r"
        feat(intro): add new feature

        add authentication
    ",
    );

    assert!(parse_commit(commit).is_ok());
}

#[test]
fn test_footer_format() {
    // Test the format of a footer, including the token and separator
    let commit = String::from(
        r"
        feat(intro): add new feature

        CLOSES: #11
    ",
    );

    assert!(parse_commit(commit).is_ok());
}

#[test]
fn test_breaking_changes_in_footer() {
    // Test that breaking changes can be specified in the footer
    //
    let commit = String::from(
        r"
        feat(intro): add new feature

        BREAKING CHANGE: major
    ",
    );

    assert!(parse_commit(commit).is_ok());
}

#[test]
fn test_breaking_changes_with_footer() {
    // Test that breaking changes can be specified in the body
    let commit = String::from(
        r"
        feat(intro): add new feature

        This is a breaking change

        BREAKING CHANGE: major
    ",
    );

    assert!(parse_commit(commit).is_ok());
}

#[test]
fn test_breaking_changes_in_prefix() {
    // Test that breaking changes can be specified in the type/scope prefix
    let commit = String::from("feat!: add new breaking change");

    assert!(parse_commit(commit).is_ok());
}

#[test]
fn test_other_types() {
    // Test that types other than "feat" and "fix" can be used
    let commit = String::from("chore: add new chore");

    assert!(parse_commit(commit).is_ok());
}

#[test]
fn test_case_insensitivity() {
    // Test that, except for "BREAKING CHANGE", the commits are case-insensitive

    let commit = String::from("FEAT: add new feature");

    assert!(parse_commit(commit).is_ok());
}

#[test]
fn test_synonymous_breaking_change() {
    // Test that "BREAKING-CHANGE" is synonymous with "BREAKING CHANGE"
    let commit = String::from(
        r"
        feat(intro): add new feature

        BREAKING-CHANGE: Oops
    ",
    );

    assert!(parse_commit(commit).is_ok());
}

use cc_scanner::config::{validate_config, CommitType, Config, TomlConfig, TomlPrompt, ValidationError};

/// Tests that constructing a new `Config` includes default commit types.
#[test]
fn when_creating_a_new_config_it_should_contain_default_commit_types() {
    let config = Config::new();

    assert_eq!(config.commit_types.len(), 2);
    let feat_type = config.commit_types.get("feat").unwrap();
    assert_eq!(feat_type.name, "feat");
    let fix_type = config.commit_types.get("fix").unwrap();
    assert_eq!(fix_type.name, "fix");
}

/// Tests that constructing a new `Config` includes default prompts.
#[test]
fn when_creating_a_new_config_it_should_contain_default_prompts() {
    let config = Config::new();

    assert_eq!(config.prompts.len(), 2);
    let type_prompt = config.prompts.get("type").unwrap();
    assert_eq!(type_prompt.name, "type");
    let subject_prompt = config.prompts.get("subject").unwrap();
    assert_eq!(subject_prompt.name, "subject");
}

#[test]
fn when_creating_a_new_config_with_configuration_enabled() {
    let config = Config::with_conventional_types();

    assert_eq!(config.commit_types.len(), 11);
    let feat_type = config.commit_types.get("feat").unwrap();
    assert_eq!(feat_type.name, "feat");
    let fix_type = config.commit_types.get("fix").unwrap();
    assert_eq!(fix_type.name, "fix");
}

/// Tests that `merge_commit_types` overrides existing commit types with new definitions.
#[test]
fn when_merging_commit_types_it_should_override_existing_definitions() {
    let mut config = Config::new();
    let description = "newly defined description";
    let toml_config = TomlConfig {
        commit_types: Some(vec![CommitType {
            name: "feat".to_string(),
            description: description.to_string(),
            emoji: Some("🌞".to_string()),
        }]),
        prompts: vec![],
    };

    let feat_type = config.commit_types.get("feat").unwrap();
    assert_eq!(feat_type.description, "A new feature");
    assert_eq!(feat_type.emoji, Some("🎁".to_string()));

    config.merge_commit_types(toml_config);

    let feat_type = config.commit_types.get("feat").unwrap();
    assert_eq!(feat_type.description, description);
    assert_eq!(feat_type.emoji, Some("🌞".to_string()))
}

/// Tests that `merge_commit_types` appends any commit types not already in the config.
#[test]
fn when_merging_commit_types_it_should_append_new_commit_types() {
    let mut config = Config::new();
    let toml_config = TomlConfig {
        commit_types: Some(vec![CommitType {
            name: "docs".to_string(),
            description: "Documentation only changes".to_string(),
            emoji: Some("📚".to_string()),
        }]),
        prompts: vec![],
    };

    config.merge_commit_types(toml_config);

    let doc_type = config.commit_types.get("docs").unwrap();
    assert_eq!(doc_type.description, "Documentation only changes");
    assert_eq!(doc_type.emoji, Some("📚".to_string()))
}

/// Tests that `merge_prompts` overrides existing prompts with new definitions.
#[test]
fn when_merging_prompts_it_should_override_existing_prompts() {
    let mut config = Config::new();
    let toml_config = TomlConfig {
        commit_types: Some(vec![]),
        prompts: vec![TomlPrompt {
            name: "type".to_string(),
            order: 5,
        }],
    };

    config.merge_prompts(toml_config);

    let type_prompt = config.prompts.get("type").unwrap();
    assert_eq!(type_prompt.order, 5)
}

/// Tests that `merge_prompts` adds prompts not previously in the config.
#[test]
fn when_merging_prompts_it_should_append_new_prompts() {
    let mut config = Config::new();
    let toml_config = TomlConfig {
        commit_types: Some(vec![]),
        prompts: vec![TomlPrompt {
            name: "footer".to_string(),
            order: 0,
        }],
    };

    assert_eq!(config.prompts.len(), 2);

    config.merge_prompts(toml_config);

    assert_eq!(config.prompts.len(), 3);
    let subject_prompt = config.prompts.get("footer").unwrap();
    assert_eq!(subject_prompt.order, 0)
}

/// Tests that `validate_config` succeeds with a properly formed `TomlConfig`.
#[test]
fn when_validating_config_with_proper_prompts_it_should_succeed() {
    let toml_config = TomlConfig {
        prompts: vec![
            TomlPrompt {
                name: "scope".to_string(),
                order: 0,
            },
            TomlPrompt {
                name: "subject".to_string(),
                order: 1,
            },
        ],
        commit_types: Some(vec![]),
    };

    assert!(validate_config(toml_config).is_ok());
}

/// Tests that `validate_config` rejects a config with duplicate prompt names.
#[test]
fn when_duplicate_prompt_names_are_found_it_should_return_a_validation_error() {
    let toml_config = TomlConfig {
        prompts: vec![
            TomlPrompt {
                name: "scope".to_string(),
                order: 0,
            },
            TomlPrompt {
                name: "scope".to_string(),
                order: 1,
            },
        ],
        commit_types: Some(vec![]),
    };

    let result = validate_config(toml_config);

    assert!(matches!(
        result,
        Err(ValidationError::DuplicatePrompts { prompt }) if prompt == "scope"
    ));
}

/// Tests that `validate_config` rejects a config with duplicate prompt orders.
#[test]
fn when_duplicate_prompt_orders_are_found_it_should_return_a_validation_error() {
    let toml_config = TomlConfig {
        prompts: vec![
            TomlPrompt {
                name: "scope".to_string(),
                order: 0,
            },
            TomlPrompt {
                name: "subject".to_string(),
                order: 0,
            },
        ],
        commit_types: Some(vec![]),
    };

    let result = validate_config(toml_config);

    assert!(matches!(
        result,
        Err(ValidationError::DuplicateOrderIndex { prompt, index: _, existing_prompt: _ }) if prompt == "subject"
    ));
}

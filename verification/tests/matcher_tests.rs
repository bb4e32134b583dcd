use projectionist::config::{ProjectionConfig, Projections};
use projectionist::matcher::Matcher;

fn create_test_projections() -> Projections {
    let mut projections = Projections::new();

    projections.insert(
        "src/*.ts".to_string(),
        ProjectionConfig {
            alternate: Some("test/{}.test.ts".to_string()),
            file_type: Some("source".to_string()),
            ..Default::default()
        },
    );

    projections.insert(
        "test/*.test.ts".to_string(),
        ProjectionConfig {
            alternate: Some("src/{}.ts".to_string()),
            file_type: Some("test".to_string()),
            ..Default::default()
        },
    );

    projections.insert(
        "app/models/*.rb".to_string(),
        ProjectionConfig {
            alternate: Some("spec/models/{}_spec.rb".to_string()),
            file_type: Some("model".to_string()),
            ..Default::default()
        },
    );

    projections
}

#[test]
fn test_glob_to_regex_simple() {
    assert!(Matcher::glob_stem("src/*.ts", "src/utils.ts").is_some());
    assert!(Matcher::glob_stem("src/*.ts", "src/foo/bar.ts").is_some());
    assert!(!Matcher::glob_stem("src/*.ts", "test/utils.ts").is_some());
    assert!(!Matcher::glob_stem("src/*.ts", "src/utils.tsx").is_some());
}

#[test]
fn test_glob_to_regex_captures_stem() {
    let stem = Matcher::glob_stem("src/*.ts", "src/utils.ts").unwrap();
    assert_eq!(stem.as_str(), "utils");

    let stem = Matcher::glob_stem("src/*.ts", "src/foo/bar.ts").unwrap();
    assert_eq!(stem.as_str(), "foo/bar");
}

#[test]
fn test_match_file() {
    let projections = create_test_projections();
    let matcher = Matcher::new(projections);

    let matches = matcher.match_file("src/utils.ts");
    assert_eq!(matches.len(), 1);
    assert_eq!(matches[0].glob, "src/*.ts");
    assert_eq!(matches[0].placeholders.get("").unwrap(), "utils");
}

#[test]
fn test_match_file_nested_path() {
    let projections = create_test_projections();
    let matcher = Matcher::new(projections);

    let matches = matcher.match_file("src/components/Button.ts");
    assert_eq!(matches.len(), 1);
    assert_eq!(
        matches[0].placeholders.get("").unwrap(),
        "components/Button"
    );
}

#[test]
fn test_match_file_test_pattern() {
    let projections = create_test_projections();
    let matcher = Matcher::new(projections);

    let matches = matcher.match_file("test/utils.test.ts");
    assert_eq!(matches.len(), 1);
    assert_eq!(matches[0].glob, "test/*.test.ts");
    assert_eq!(matches[0].placeholders.get("").unwrap(), "utils");
}

#[test]
fn test_match_file_no_match() {
    let projections = create_test_projections();
    let matcher = Matcher::new(projections);

    let matches = matcher.match_file("other/file.js");
    assert!(matches.is_empty());
}

#[test]
fn test_match_file_ruby_model() {
    let projections = create_test_projections();
    let matcher = Matcher::new(projections);

    let matches = matcher.match_file("app/models/user.rb");
    assert_eq!(matches.len(), 1);
    assert_eq!(matches[0].glob, "app/models/*.rb");
    assert_eq!(matches[0].placeholders.get("").unwrap(), "user");
}

#[test]
fn glob_without_star_matches_only_itself() {
    assert_eq!(Matcher::glob_stem("db/schema.rb", "db/schema.rb").unwrap(), "");
    assert!(Matcher::glob_stem("db/schema.rb", "db/schema.rbx").is_none());
    assert!(Matcher::glob_stem("db/schema.rb", "db/schema").is_none());
}

#[test]
fn glob_stem_may_be_empty() {
    assert_eq!(Matcher::glob_stem("src/*.ts", "src/.ts").unwrap(), "");
}

#[test]
fn glob_stem_is_on_one_line() {
    assert!(Matcher::glob_stem("src/*.ts", "src/a\nb.ts").is_none());
    assert_eq!(Matcher::glob_stem("src/*.ts", "src/a\tb.ts").unwrap(), "a\tb");
}

#[test]
fn glob_prefix_and_suffix_do_not_overlap() {
    assert!(Matcher::glob_stem("ab*ba", "aba").is_none());
    assert_eq!(Matcher::glob_stem("ab*ba", "abba").unwrap(), "");
}

#[test]
fn glob_later_stars_are_literal() {
    assert_eq!(Matcher::glob_stem("*_test.*", "foo_test.*").unwrap(), "foo");
    assert!(Matcher::glob_stem("*_test.*", "foo_test.go").is_none());
}

#[test]
fn glob_regex_characters_are_literal() {
    assert_eq!(Matcher::glob_stem("a.(b)/*+x", "a.(b)/st+x").unwrap(), "st");
    assert!(Matcher::glob_stem("a.(b)/*+x", "aX(b)/st+x").is_none());
}

#[test]
fn match_file_normalizes_backslashes() {
    let matcher = Matcher::new(create_test_projections());
    let matches = matcher.match_file("src\\components\\Button.ts");
    assert_eq!(matches.len(), 1);
    assert_eq!(matches[0].placeholders.get("").unwrap(), "components/Button");
}

#[test]
fn match_file_keeps_configuration() {
    let matcher = Matcher::new(create_test_projections());
    let matches = matcher.match_file("app/models/user.rb");
    assert_eq!(matches[0].config.file_type, Some("model".to_string()));
    assert_eq!(
        matches[0].config.alternate,
        Some("spec/models/{}_spec.rb".to_string())
    );
}

#[test]
fn match_file_reports_every_matching_glob_in_order() {
    let mut projections = Projections::new();
    projections.insert("*.ts".to_string(), ProjectionConfig::default());
    projections.insert("src/*".to_string(), ProjectionConfig::default());
    projections.insert("lib/*".to_string(), ProjectionConfig::default());
    let matcher = Matcher::new(projections);
    let matches = matcher.match_file("src/a.ts");
    assert_eq!(matches.len(), 2);
    assert_eq!(matches[0].glob, "*.ts");
    assert_eq!(matches[0].placeholders.get("").unwrap(), "src/a");
    assert_eq!(matches[1].glob, "src/*");
    assert_eq!(matches[1].placeholders.get("").unwrap(), "a.ts");
}

#[test]
fn match_absolute_path_is_relative_to_root() {
    let matcher = Matcher::new(create_test_projections());
    let matches = matcher.match_absolute_path("/proj/src/utils.ts", "/proj");
    assert_eq!(matches.len(), 1);
    assert_eq!(matches[0].placeholders.get("").unwrap(), "utils");

    let outside = matcher.match_absolute_path("/other/src/utils.ts", "/proj");
    assert!(outside.is_empty());
}

#[test]
fn projections_insert_replaces_existing_glob() {
    let mut projections = create_test_projections();
    assert_eq!(projections.len(), 3);
    projections.insert(
        "src/*.ts".to_string(),
        ProjectionConfig {
            file_type: Some("changed".to_string()),
            ..Default::default()
        },
    );
    assert_eq!(projections.len(), 3);
    assert!(projections.contains_key("src/*.ts"));
    assert!(!projections.contains_key("lib/*.ts"));
    assert_eq!(
        projections.get("src/*.ts").unwrap().file_type,
        Some("changed".to_string())
    );
    assert_eq!(projections.glob_at(0), "src/*.ts");
    assert!(projections.get("nothing").is_none());
}

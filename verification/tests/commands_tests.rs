use projectionist::commands::alternate::{choose_alternate, AlternateAction, AlternateResult};
use projectionist::commands::create::{check_overwrite, CreateError};
use projectionist::config::{ProjectionConfig, Projections};
use projectionist::{create_file, find_alternate, find_related, get_projection_info};

fn source_and_test() -> Projections {
    let mut projections = Projections::new();
    projections.insert(
        "src/*.ts".to_string(),
        ProjectionConfig {
            alternate: Some("test/{}.test.ts".to_string()),
            ..Default::default()
        },
    );
    projections.insert(
        "test/*.test.ts".to_string(),
        ProjectionConfig {
            alternate: Some("src/{}.ts".to_string()),
            ..Default::default()
        },
    );
    projections
}

#[test]
fn alternate_of_source_is_test() {
    let result = find_alternate("/proj/src/utils.ts", "/proj", source_and_test());
    assert_eq!(result.paths, vec!["/proj/test/utils.test.ts".to_string()]);
    assert!(result.existing.is_empty());
    assert_eq!(result.project_root, "/proj");
}

#[test]
fn alternate_of_test_is_source() {
    let result = find_alternate("/proj/test/utils.test.ts", "/proj", source_and_test());
    assert_eq!(result.paths, vec!["/proj/src/utils.ts".to_string()]);
}

#[test]
fn alternate_round_trip() {
    let there = find_alternate("/proj/src/a/b.ts", "/proj", source_and_test());
    assert_eq!(there.paths, vec!["/proj/test/a/b.test.ts".to_string()]);
    let back = find_alternate(&there.paths[0], "/proj", source_and_test());
    assert_eq!(back.paths, vec!["/proj/src/a/b.ts".to_string()]);
}

#[test]
fn alternate_outside_the_root_has_none() {
    let result = find_alternate("/elsewhere/src/utils.ts", "/proj", source_and_test());
    assert!(result.paths.is_empty());
}

#[test]
fn alternate_paths_are_not_repeated() {
    let mut projections = Projections::new();
    projections.insert(
        "src/*.ts".to_string(),
        ProjectionConfig {
            alternate: Some("test/{}.test.ts".to_string()),
            ..Default::default()
        },
    );
    projections.insert(
        "src/*".to_string(),
        ProjectionConfig {
            alternate: Some("test//{|file}.test.ts".to_string()),
            ..Default::default()
        },
    );
    projections.insert(
        "*.ts".to_string(),
        ProjectionConfig {
            alternate: Some("spec/{}.ts".to_string()),
            ..Default::default()
        },
    );
    let result = find_alternate("/proj/src/utils.ts", "/proj", projections);
    assert_eq!(
        result.paths,
        vec![
            "/proj/test/utils.test.ts".to_string(),
            "/proj/spec/src/utils.ts".to_string()
        ]
    );
}

#[test]
fn record_existing_keeps_the_existing_paths_in_order() {
    let mut result = AlternateResult {
        paths: vec!["/a".to_string(), "/b".to_string(), "/c".to_string()],
        existing: Vec::new(),
        project_root: "/".to_string(),
    };
    result.record_existing(&vec![true, false, true]);
    assert_eq!(result.existing, vec!["/a".to_string(), "/c".to_string()]);
    assert_eq!(result.paths.len(), 3);
}

fn result_with(paths: &[&str], existing: &[&str]) -> AlternateResult {
    AlternateResult {
        paths: paths.iter().map(|p| p.to_string()).collect(),
        existing: existing.iter().map(|p| p.to_string()).collect(),
        project_root: "/proj".to_string(),
    }
}

#[test]
fn choose_alternate_prefers_an_existing_file() {
    let r = result_with(&["/x", "/y"], &["/y"]);
    assert!(matches!(choose_alternate(&r, true), AlternateAction::Existing(p) if p == "/y"));
}

#[test]
fn choose_alternate_creates_when_asked() {
    let r = result_with(&["/x", "/y"], &[]);
    assert!(matches!(choose_alternate(&r, true), AlternateAction::Create(p) if p == "/x"));
    let none = result_with(&[], &[]);
    assert!(matches!(choose_alternate(&none, true), AlternateAction::NoPattern));
}

#[test]
fn choose_alternate_shows_a_missing_file() {
    let r = result_with(&["/x"], &[]);
    assert!(matches!(choose_alternate(&r, false), AlternateAction::Missing(p) if p == "/x"));
    let none = result_with(&[], &[]);
    assert!(matches!(choose_alternate(&none, false), AlternateAction::NotFound));
}

fn component_projections() -> Projections {
    let mut projections = Projections::new();
    projections.insert(
        "src/components/*.tsx".to_string(),
        ProjectionConfig {
            alternate: Some("src/components/{}.test.tsx".to_string()),
            related: Some(vec![
                "src/components/{}.module.css".to_string(),
                "src/components/{}.stories.tsx".to_string(),
            ]),
            define: Some("export const {}".to_string()),
            ..Default::default()
        },
    );
    projections
}

#[test]
fn related_files_come_with_the_search_pattern() {
    let mut result = find_related("/proj/src/components/Button.tsx", "/proj", component_projections());
    let paths: Vec<&str> = result.files.iter().map(|f| f.path.as_str()).collect();
    assert_eq!(
        paths,
        vec![
            "/proj/src/components/Button.module.css",
            "/proj/src/components/Button.stories.tsx",
            "/proj/src/components/Button.test.tsx"
        ]
    );
    for file in &result.files {
        assert_eq!(file.search_pattern, Some("export const Button".to_string()));
        assert!(!file.exists);
    }
    result.record_existing(&vec![true, false, false]);
    assert!(result.files[0].exists);
    assert!(!result.files[1].exists);
    assert_eq!(result.files[0].path, "/proj/src/components/Button.module.css");
}

#[test]
fn related_files_are_not_repeated() {
    let mut projections = Projections::new();
    projections.insert(
        "lib/*.rb".to_string(),
        ProjectionConfig {
            alternate: Some("spec/{}_spec.rb".to_string()),
            related: Some(vec!["spec/{}_spec.rb".to_string(), "db/schema.rb".to_string()]),
            ..Default::default()
        },
    );
    let result = find_related("/p/lib/user.rb", "/p", projections);
    let paths: Vec<&str> = result.files.iter().map(|f| f.path.as_str()).collect();
    assert_eq!(paths, vec!["/p/spec/user_spec.rb", "/p/db/schema.rb"]);
    assert_eq!(result.files[0].search_pattern, None);
}

#[test]
fn projection_info_expands_everything() {
    let mut projections = Projections::new();
    projections.insert(
        "src/*.ts".to_string(),
        ProjectionConfig {
            alternate: Some("test/{}.test.ts".to_string()),
            related: Some(vec!["docs/{}.md".to_string()]),
            file_type: Some("source".to_string()),
            define: Some("export class {}".to_string()),
            template: Some(vec!["export class {} {".to_string(), "}".to_string()]),
        },
    );
    let result = get_projection_info("/proj/src/utils.ts", "/proj", projections);
    assert_eq!(result.file, "/proj/src/utils.ts");
    assert_eq!(result.project_root, "/proj");
    assert_eq!(result.projections.len(), 1);

    let info = &result.projections[0];
    assert_eq!(info.pattern, "src/*.ts");
    assert_eq!(info.stem, "utils");
    assert_eq!(info.file_type, Some("source".to_string()));
    assert_eq!(info.define, Some("export class utils".to_string()));
    assert_eq!(
        info.template,
        Some(vec!["export class utils {".to_string(), "}".to_string()])
    );

    let alt = info.alternate.as_ref().unwrap();
    assert_eq!(alt.pattern, "test/{}.test.ts");
    assert_eq!(alt.expanded, "test/utils.test.ts");
    assert_eq!(alt.full_path, "/proj/test/utils.test.ts");
    assert!(!alt.exists);

    assert_eq!(info.related.len(), 1);
    assert_eq!(info.related[0].expanded, "docs/utils.md");
    assert_eq!(info.related[0].full_path, "/proj/docs/utils.md");
}

#[test]
fn projection_info_without_matches_is_empty() {
    let result = get_projection_info("/proj/other.txt", "/proj", source_and_test());
    assert!(result.projections.is_empty());
}

fn template_projections() -> Projections {
    let mut projections = Projections::new();
    projections.insert(
        "src/*.ts".to_string(),
        ProjectionConfig {
            template: Some(vec![
                "export class {} {".to_string(),
                "  constructor() {".to_string(),
                "    // TODO: implement".to_string(),
                "  }".to_string(),
                "}".to_string(),
            ]),
            ..Default::default()
        },
    );
    projections.insert(
        "src/components/*.tsx".to_string(),
        ProjectionConfig {
            template: Some(vec![
                "import React from 'react';".to_string(),
                "".to_string(),
                "interface {}Props {}".to_string(),
                "".to_string(),
                "export const {}: React.FC<{}Props> = (props) => {".to_string(),
                "  return <div>{}</div>;".to_string(),
                "};".to_string(),
            ]),
            ..Default::default()
        },
    );
    projections
}

#[test]
fn create_file_content_from_template() {
    let result = create_file("/proj/src/utils.ts", "/proj", template_projections());
    let created = match result {
        Ok(c) => c,
        Err(_) => panic!("expected a template"),
    };
    assert_eq!(created.path, "/proj/src/utils.ts");
    assert_eq!(created.project_root, "/proj");
    assert_eq!(
        created.content,
        "export class utils {\n  constructor() {\n    // TODO: implement\n  }\n}"
    );
}

#[test]
fn create_file_component_template() {
    let result = create_file("/proj/src/components/Button.tsx", "/proj", template_projections());
    let created = match result {
        Ok(c) => c,
        Err(_) => panic!("expected a template"),
    };
    assert!(created.content.contains("export const Button"));
    assert!(created.content.starts_with("import React from 'react';\n\ninterface ButtonProps Button"));
}

#[test]
fn create_file_without_template_is_an_error() {
    let result = create_file("/proj/lib/utils.rb", "/proj", template_projections());
    match result {
        Err(CreateError::NoTemplateFound(p)) => assert_eq!(p, "/proj/lib/utils.rb"),
        _ => panic!("expected NoTemplateFound"),
    }
}

#[test]
fn existing_file_is_kept_unless_forced() {
    match check_overwrite("/proj/src/existing.ts", true, false) {
        Err(CreateError::FileExists(p)) => assert_eq!(p, "/proj/src/existing.ts"),
        _ => panic!("expected FileExists"),
    }
    assert!(check_overwrite("/proj/src/existing.ts", true, true).is_ok());
    assert!(check_overwrite("/proj/src/new.ts", false, false).is_ok());
}

#[test]
fn projection_info_records_existing_paths() {
    let mut projections = Projections::new();
    projections.insert(
        "src/*.ts".to_string(),
        ProjectionConfig {
            alternate: Some("test/{}.test.ts".to_string()),
            related: Some(vec!["docs/{}.md".to_string(), "types/{}.d.ts".to_string()]),
            ..Default::default()
        },
    );
    let mut result = get_projection_info("/proj/src/utils.ts", "/proj", projections);
    let info = &mut result.projections[0];
    info.record_existing(true, &vec![false, true]);
    let alt = info.alternate.as_ref().unwrap();
    assert!(alt.exists);
    assert_eq!(alt.expanded, "test/utils.test.ts");
    assert!(!info.related[0].exists);
    assert!(info.related[1].exists);
    assert_eq!(info.related[1].full_path, "/proj/types/utils.d.ts");
    assert_eq!(info.stem, "utils");
}

use projectionist::placeholders::Placeholders;
use projectionist::transform::{apply_transformations, expand_placeholders};

#[test]
fn test_path_transformations() {
    assert_eq!(apply_transformations("foo/bar/baz", &["dot"]), "foo.bar.baz");
    assert_eq!(
        apply_transformations("foo/bar/baz", &["underscore"]),
        "foo_bar_baz"
    );
    assert_eq!(
        apply_transformations("foo/bar/baz", &["backslash"]),
        "foo\\bar\\baz"
    );
    assert_eq!(
        apply_transformations("foo/bar/baz", &["colons"]),
        "foo::bar::baz"
    );
}

#[test]
fn test_case_transformations() {
    assert_eq!(apply_transformations("fooBar", &["uppercase"]), "FOOBAR");
    assert_eq!(apply_transformations("FooBar", &["lowercase"]), "foobar");
    assert_eq!(apply_transformations("foo_bar", &["camelcase"]), "fooBar");
    assert_eq!(apply_transformations("fooBar", &["snakecase"]), "foo_bar");
}

#[test]
fn test_path_component_transformations() {
    assert_eq!(
        apply_transformations("foo/bar/baz", &["dirname"]),
        "foo/bar"
    );
    assert_eq!(apply_transformations("foo/bar/baz", &["basename"]), "baz");
    assert_eq!(apply_transformations("foo.test.ts", &["file"]), "foo.test");
    assert_eq!(apply_transformations("foo.ts", &["ext"]), "ts");
}

#[test]
fn test_inflection_transformations() {
    assert_eq!(apply_transformations("user", &["plural"]), "users");
    assert_eq!(apply_transformations("category", &["plural"]), "categories");
    assert_eq!(apply_transformations("leaf", &["plural"]), "leaves");
    assert_eq!(apply_transformations("bus", &["plural"]), "buses");

    assert_eq!(apply_transformations("users", &["singular"]), "user");
    assert_eq!(
        apply_transformations("categories", &["singular"]),
        "category"
    );
    assert_eq!(apply_transformations("leaves", &["singular"]), "leaf");
}

#[test]
fn test_chained_transformations() {
    assert_eq!(
        apply_transformations("foo/bar", &["basename", "uppercase"]),
        "BAR"
    );
    assert_eq!(
        apply_transformations("user_profile", &["camelcase", "uppercase"]),
        "USERPROFILE"
    );
}

#[test]
fn test_expand_placeholders_basic() {
    let mut placeholders = Placeholders::new();
    placeholders.insert(String::new(), "utils".to_string());

    assert_eq!(expand_placeholders("{}", &placeholders), "utils");
    assert_eq!(expand_placeholders("test/{}.test.ts", &placeholders), "test/utils.test.ts");
}

#[test]
fn test_expand_placeholders_with_transforms() {
    let mut placeholders = Placeholders::new();
    placeholders.insert(String::new(), "foo/bar/baz".to_string());

    assert_eq!(expand_placeholders("{|dirname}", &placeholders), "foo/bar");
    assert_eq!(expand_placeholders("{|basename}", &placeholders), "baz");
    assert_eq!(expand_placeholders("{|dot}", &placeholders), "foo.bar.baz");
}

#[test]
fn test_expand_placeholders_with_chained_transforms() {
    let mut placeholders = Placeholders::new();
    placeholders.insert(String::new(), "foo/bar".to_string());

    assert_eq!(
        expand_placeholders("{|basename|uppercase}", &placeholders),
        "BAR"
    );
}

#[test]
fn test_hyphenate() {
    assert_eq!(apply_transformations("foo_bar", &["hyphenate"]), "foo-bar");
    assert_eq!(
        apply_transformations("foo bar", &["hyphenate"]),
        "foo-bar"
    );
}

use projectionist::placeholders::Placeholders;
use projectionist::transform::{apply_single_transformation, apply_transformations, expand_placeholders};

fn stem(value: &str) -> Placeholders {
    let mut placeholders = Placeholders::new();
    placeholders.insert(String::new(), value.to_string());
    placeholders
}

#[test]
fn unknown_transformation_keeps_the_value() {
    assert_eq!(apply_transformations("foo/Bar", &["nope"]), "foo/Bar");
    assert_eq!(apply_transformations("foo/Bar", &[""]), "foo/Bar");
    assert_eq!(apply_transformations("foo/Bar", &[]), "foo/Bar");
    assert_eq!(apply_single_transformation("foo/Bar", "Dot"), "foo/Bar");
}

#[test]
fn transformations_compose_left_to_right() {
    let both = apply_transformations("app/user_profile", &["basename", "camelcase", "plural"]);
    let first = apply_transformations("app/user_profile", &["basename"]);
    let rest = apply_transformations(&first, &["camelcase", "plural"]);
    assert_eq!(both, rest);
    assert_eq!(both, "userProfiles");
}

#[test]
fn separators_leave_a_value_without_slash_alone() {
    for t in ["dot", "underscore", "backslash", "colons"] {
        assert_eq!(apply_transformations("plain.name", &[t]), "plain.name");
    }
    assert_eq!(apply_transformations("/a//b/", &["colons"]), "::a::::b::");
}

#[test]
fn hyphenate_replaces_underscores_and_white_space() {
    assert_eq!(apply_transformations("a_b\tc\nd\u{3000}e", &["hyphenate"]), "a-b-c-d-e");
    assert_eq!(apply_transformations("a-b.c", &["hyphenate"]), "a-b.c");
}

#[test]
fn camelcase_edge_cases() {
    assert_eq!(apply_transformations("foo-bar baz", &["camelcase"]), "fooBarBaz");
    assert_eq!(apply_transformations("foo_", &["camelcase"]), "foo");
    assert_eq!(apply_transformations("foo-_bar", &["camelcase"]), "foo_bar");
    assert_eq!(apply_transformations("a_\nb", &["camelcase"]), "aB");
    assert_eq!(apply_transformations("a_\n", &["camelcase"]), "a");
    assert_eq!(apply_transformations("_é", &["camelcase"]), "É");
    assert_eq!(apply_transformations("x_ß", &["camelcase"]), "xSS");
}

#[test]
fn snakecase_edge_cases() {
    assert_eq!(apply_transformations("fooBarBaz", &["snakecase"]), "foo_bar_baz");
    assert_eq!(apply_transformations("aBC", &["snakecase"]), "a_bc");
    assert_eq!(apply_transformations("ABC", &["snakecase"]), "abc");
    assert_eq!(apply_transformations("already_snake", &["snakecase"]), "already_snake");
}

#[test]
fn case_of_non_ascii_text() {
    assert_eq!(apply_transformations("straße", &["uppercase"]), "STRASSE");
    assert_eq!(apply_transformations("ÄÖÜ", &["lowercase"]), "äöü");
}

#[test]
fn dirname_and_basename_split_at_the_last_slash() {
    assert_eq!(apply_transformations("file.rb", &["dirname"]), "");
    assert_eq!(apply_transformations("file.rb", &["basename"]), "file.rb");
    assert_eq!(apply_transformations("a/b/", &["dirname"]), "a/b");
    assert_eq!(apply_transformations("a/b/", &["basename"]), "");
    let v = "x/y/z.rb";
    let rebuilt = format!(
        "{}/{}",
        apply_transformations(v, &["dirname"]),
        apply_transformations(v, &["basename"])
    );
    assert_eq!(rebuilt, v);
}

#[test]
fn file_and_ext_edge_cases() {
    assert_eq!(apply_transformations("dir/foo.test.ts", &["file"]), "dir/foo.test");
    assert_eq!(apply_transformations(".bashrc", &["file"]), ".bashrc");
    assert_eq!(apply_transformations("dir/.bashrc", &["file"]), "dir/.bashrc");
    assert_eq!(apply_transformations("noext", &["file"]), "noext");
    assert_eq!(apply_transformations("noext", &["ext"]), "");
    assert_eq!(apply_transformations("a.b/c", &["ext"]), "b/c");
    let v = "src/app.module.ts";
    let rebuilt = format!(
        "{}.{}",
        apply_transformations(v, &["file"]),
        apply_transformations(v, &["ext"])
    );
    assert_eq!(rebuilt, v);
}

#[test]
fn plural_rules() {
    assert_eq!(apply_transformations("box", &["plural"]), "boxes");
    assert_eq!(apply_transformations("quiz", &["plural"]), "quizes");
    assert_eq!(apply_transformations("church", &["plural"]), "churches");
    assert_eq!(apply_transformations("dish", &["plural"]), "dishes");
    assert_eq!(apply_transformations("day", &["plural"]), "days");
    assert_eq!(apply_transformations("y", &["plural"]), "ys");
    assert_eq!(apply_transformations("knife", &["plural"]), "knives");
    assert_eq!(apply_transformations("", &["plural"]), "s");
}

#[test]
fn plural_looks_at_the_byte_length() {
    // The character before the `y` is taken at the UTF-8 length minus two.
    assert_eq!(apply_transformations("éy", &["plural"]), "éies");
    assert_eq!(apply_transformations("éay", &["plural"]), "éaies");
    assert_eq!(apply_transformations("ééy", &["plural"]), "ééys");
}

#[test]
fn singular_rules() {
    assert_eq!(apply_transformations("buses", &["singular"]), "bus");
    assert_eq!(apply_transformations("boxes", &["singular"]), "boxe");
    assert_eq!(apply_transformations("knives", &["singular"]), "knif");
    assert_eq!(apply_transformations("s", &["singular"]), "s");
    assert_eq!(apply_transformations("ies", &["singular"]), "ie");
    assert_eq!(apply_transformations("data", &["singular"]), "data");
}

#[test]
fn plural_then_singular_gives_the_word_back() {
    for w in ["user", "book", "item", "model", "car"] {
        let p = apply_transformations(w, &["plural"]);
        assert_eq!(p, format!("{}s", w));
        assert_eq!(apply_transformations(&p, &["singular"]), w);
    }
}

#[test]
fn expand_named_and_default_placeholders() {
    let mut placeholders = stem("user");
    placeholders.insert("model".to_string(), "Account".to_string());
    assert_eq!(expand_placeholders("{model}/{}", &placeholders), "Account/user");
    assert_eq!(expand_placeholders("{other}", &placeholders), "user");
    assert_eq!(expand_placeholders("{model|plural|lowercase}", &placeholders), "accounts");
    assert_eq!(placeholders.get("model").unwrap(), "Account");
    assert!(placeholders.get("other").is_none());
}

#[test]
fn expand_without_stem_gives_nothing() {
    let placeholders = Placeholders::new();
    assert_eq!(expand_placeholders("a{}b{x}c", &placeholders), "abc");
}

#[test]
fn expand_keeps_text_that_is_no_placeholder() {
    let placeholders = stem("s");
    assert_eq!(expand_placeholders("plain text", &placeholders), "plain text");
    assert_eq!(expand_placeholders("a{b", &placeholders), "a{b");
    assert_eq!(expand_placeholders("a}b", &placeholders), "a}b");
    assert_eq!(expand_placeholders("{{}", &placeholders), "{s");
    assert_eq!(expand_placeholders("{a{}}", &placeholders), "{as}");
    assert_eq!(expand_placeholders("{|nope}", &placeholders), "s");
    assert_eq!(expand_placeholders("{|}", &placeholders), "s");
}

#[test]
fn expand_body_may_span_lines() {
    let placeholders = stem("s");
    assert_eq!(expand_placeholders("{x\ny}", &placeholders), "s");
}

#[test]
fn insert_replaces_a_value() {
    let mut placeholders = stem("first");
    placeholders.insert(String::new(), "second".to_string());
    assert_eq!(placeholders.get("").unwrap(), "second");
    assert_eq!(expand_placeholders("{}", &placeholders), "second");
}

#[test]
fn camelcase_then_snakecase_gives_the_word_back() {
    for w in ["user_profile", "a_bc", "get_user_by_id", "plain"] {
        assert_eq!(apply_transformations(w, &["camelcase", "snakecase"]), w);
    }
}

#[test]
fn singular_undoes_plural_for_s_y_and_f_words() {
    for w in ["bus", "day", "category", "leaf", "user", "class"] {
        let p = apply_transformations(w, &["plural"]);
        assert_eq!(apply_transformations(&p, &["singular"]), w);
    }
}

#[test]
fn plural_then_singular_in_one_call_gives_the_word_back() {
    for w in ["bus", "day", "category", "leaf", "user"] {
        assert_eq!(apply_transformations(w, &["plural", "singular"]), w);
    }
}

#[test]
fn chained_placeholder_applies_the_names_in_turn() {
    let placeholders = stem("app/user_profile");
    assert_eq!(
        expand_placeholders("{|basename|camelcase|plural}", &placeholders),
        apply_transformations("app/user_profile", &["basename", "camelcase", "plural"])
    );
    assert_eq!(expand_placeholders("{}", &placeholders), "app/user_profile");
}

//! The same rules written with the `regex` crate give the same results as the
//! library on every short text over a few alphabets.
use projectionist::matcher::Matcher;
use projectionist::placeholders::Placeholders;
use projectionist::transform::{apply_transformations, expand_placeholders};
use regex::Regex;
use std::collections::HashMap;

fn texts(alphabet: &[char], max_len: usize) -> Vec<String> {
    let mut all = vec![String::new()];
    let mut layer = vec![String::new()];
    for _ in 0..max_len {
        let mut next = Vec::new();
        for t in &layer {
            for c in alphabet {
                let mut s = t.clone();
                s.push(*c);
                next.push(s);
            }
        }
        all.extend(next.iter().cloned());
        layer = next;
    }
    all
}

#[test]
fn hyphenate_agrees_with_regex() {
    let re = Regex::new(r"[_\s]").unwrap();
    for v in texts(&['a', '_', '-', ' ', '\n', '\t', '\u{3000}', '\u{85}', 'é'], 4) {
        assert_eq!(
            apply_transformations(&v, &["hyphenate"]),
            re.replace_all(&v, "-").to_string(),
            "{:?}",
            v
        );
    }
}

#[test]
fn camelcase_agrees_with_regex() {
    let re = Regex::new(r"[-_\s](.)?").unwrap();
    for v in texts(&['a', 'B', '_', '-', ' ', '\n', 'é', 'ß', '\u{2003}'], 4) {
        let expected = re
            .replace_all(&v, |caps: &regex::Captures| {
                caps.get(1)
                    .map(|m| m.as_str().to_uppercase())
                    .unwrap_or_default()
            })
            .to_string();
        assert_eq!(apply_transformations(&v, &["camelcase"]), expected, "{:?}", v);
    }
}

#[test]
fn snakecase_agrees_with_regex() {
    let re = Regex::new(r"([a-z])([A-Z])").unwrap();
    for v in texts(&['a', 'z', 'B', 'Z', '_', 'é', 'É', '1'], 4) {
        let expected = re.replace_all(&v, "${1}_${2}").to_lowercase();
        assert_eq!(apply_transformations(&v, &["snakecase"]), expected, "{:?}", v);
    }
}

fn glob_regex(glob: &str) -> Regex {
    match glob.find('*') {
        None => Regex::new(&format!("^{}$", regex::escape(glob))).unwrap(),
        Some(index) => Regex::new(&format!(
            "^{}(.*){}$",
            regex::escape(&glob[..index]),
            regex::escape(&glob[index + 1..])
        ))
        .unwrap(),
    }
}

fn regex_glob_stem(re: &Regex, path: &str) -> Option<String> {
    re.captures(path).map(|caps| {
        caps.get(1)
            .map(|m| m.as_str().to_string())
            .unwrap_or_default()
    })
}

#[test]
fn glob_agrees_with_regex() {
    let globs = [
        "", "*", "**", "a*", "*a", "a*a", "s/*.t", "*_t.*", ".*", "a.t", "é*ü", "(*)", "a\n*",
    ];
    let paths = texts(&['a', 's', '/', '.', 't', '*', '\n', 'é', '_'], 4);
    for glob in globs {
        let re = glob_regex(glob);
        for path in &paths {
            let got = Matcher::glob_stem(glob, path);
            assert_eq!(got, regex_glob_stem(&re, path), "{:?} {:?}", glob, path);
        }
    }
    let re = glob_regex("app/models/*.rb");
    assert_eq!(
        Matcher::glob_stem("app/models/*.rb", "app/models/a/b.rb"),
        regex_glob_stem(&re, "app/models/a/b.rb")
    );
}

fn regex_expand(template: &str, values: &HashMap<String, String>) -> String {
    let re = Regex::new(r"\{([^{}]*)\}").unwrap();
    re.replace_all(template, |caps: &regex::Captures| {
        let content = caps.get(1).map(|m| m.as_str()).unwrap_or("");
        if content.is_empty() {
            return values.get("").cloned().unwrap_or_default();
        }
        let parts: Vec<&str> = content.split('|').collect();
        let name = parts[0];
        let transformations: Vec<&str> = parts[1..].to_vec();
        let value = if name.is_empty() {
            values.get("").cloned().unwrap_or_default()
        } else {
            values
                .get(name)
                .or_else(|| values.get(""))
                .cloned()
                .unwrap_or_default()
        };
        if transformations.is_empty() {
            value
        } else {
            apply_transformations(&value, &transformations)
        }
    })
    .to_string()
}

#[test]
fn expand_agrees_with_regex() {
    let mut values = HashMap::new();
    values.insert(String::new(), "st/ab".to_string());
    values.insert("a".to_string(), "Named_value".to_string());
    let mut placeholders = Placeholders::new();
    for (k, v) in &values {
        placeholders.insert(k.clone(), v.clone());
    }
    for t in texts(&['{', '}', '|', 'a', 'x', '\n'], 5) {
        assert_eq!(
            expand_placeholders(&t, &placeholders),
            regex_expand(&t, &values),
            "{:?}",
            t
        );
    }
    for t in [
        "{|basename|uppercase}",
        "{a|snakecase}/{|dirname}",
        "x{a|camelcase|plural}y{}",
        "{{|dot}}",
        "{|file|ext}",
    ] {
        assert_eq!(expand_placeholders(t, &placeholders), regex_expand(t, &values), "{:?}", t);
    }

    let empty = Placeholders::new();
    for t in ["{}", "{a}", "x{|plural}"] {
        assert_eq!(expand_placeholders(t, &empty), regex_expand(t, &HashMap::new()));
    }
}

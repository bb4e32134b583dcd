//! The value transformations of placeholders (`{|dot}`, `{|camelcase}`, ...)
//! and the expansion of placeholders in templates.
use vstd::prelude::*;
use vstd::utf8::encode_utf8;

use crate::placeholders::Placeholders;
use crate::strings::{
    chars_of, ends_with, ends_with_char, ends_with_chars, eq_chars, last_index_of, push_char,
    replace_char, replace_char_exec, rfind_char, str_lowercase, str_uppercase, string_of, ascii_lower,
    ascii_upper, lemma_ascii_case_round_trip,
    string_of_range, to_lowercase, to_uppercase, lemma_last_index_of,
};

verus! {

/// The transformations that a placeholder can name.
#[derive(Clone, Copy, Debug, PartialEq, Eq, Structural)]
pub enum Transformation {
    Dot,
    Underscore,
    Backslash,
    Colons,
    Hyphenate,
    Uppercase,
    Lowercase,
    CamelCase,
    SnakeCase,
    Dirname,
    Basename,
    File,
    Ext,
    Plural,
    Singular,
    Unknown,
}

/// The transformation that a name selects; any other name is `Unknown`.
pub open spec fn transformation_named(name: Seq<char>) -> Transformation {
    if name == seq!['d', 'o', 't'] {
        Transformation::Dot
    } else if name == seq!['u', 'n', 'd', 'e', 'r', 's', 'c', 'o', 'r', 'e'] {
        Transformation::Underscore
    } else if name == seq!['b', 'a', 'c', 'k', 's', 'l', 'a', 's', 'h'] {
        Transformation::Backslash
    } else if name == seq!['c', 'o', 'l', 'o', 'n', 's'] {
        Transformation::Colons
    } else if name == seq!['h', 'y', 'p', 'h', 'e', 'n', 'a', 't', 'e'] {
        Transformation::Hyphenate
    } else if name == seq!['u', 'p', 'p', 'e', 'r', 'c', 'a', 's', 'e'] {
        Transformation::Uppercase
    } else if name == seq!['l', 'o', 'w', 'e', 'r', 'c', 'a', 's', 'e'] {
        Transformation::Lowercase
    } else if name == seq!['c', 'a', 'm', 'e', 'l', 'c', 'a', 's', 'e'] {
        Transformation::CamelCase
    } else if name == seq!['s', 'n', 'a', 'k', 'e', 'c', 'a', 's', 'e'] {
        Transformation::SnakeCase
    } else if name == seq!['d', 'i', 'r', 'n', 'a', 'm', 'e'] {
        Transformation::Dirname
    } else if name == seq!['b', 'a', 's', 'e', 'n', 'a', 'm', 'e'] {
        Transformation::Basename
    } else if name == seq!['f', 'i', 'l', 'e'] {
        Transformation::File
    } else if name == seq!['e', 'x', 't'] {
        Transformation::Ext
    } else if name == seq!['p', 'l', 'u', 'r', 'a', 'l'] {
        Transformation::Plural
    } else if name == seq!['s', 'i', 'n', 'g', 'u', 'l', 'a', 'r'] {
        Transformation::Singular
    } else {
        Transformation::Unknown
    }
}

/// The name `camelcase`.
pub open spec fn camelcase_name() -> Seq<char> {
    seq!['c', 'a', 'm', 'e', 'l', 'c', 'a', 's', 'e']
}

/// The name `snakecase`.
pub open spec fn snakecase_name() -> Seq<char> {
    seq!['s', 'n', 'a', 'k', 'e', 'c', 'a', 's', 'e']
}

/// The name `plural`.
pub open spec fn plural_name() -> Seq<char> {
    seq!['p', 'l', 'u', 'r', 'a', 'l']
}

/// The name `singular`.
pub open spec fn singular_name() -> Seq<char> {
    seq!['s', 'i', 'n', 'g', 'u', 'l', 'a', 'r']
}

/// The words whose plural's singular is the word again by
/// `law_singular_undoes_plural`: ASCII words of two or more letters that do
/// not end in `x`, `z`, `e`, `ch` or `sh`.
pub open spec fn plural_round_trips(w: Seq<char>) -> bool {
    &&& vstd::utf8::is_ascii_chars(w)
    &&& w.len() >= 2
    &&& w.len() + 3 <= usize::MAX
    &&& !(w.last() == 'x' || w.last() == 'z' || w.last() == 'e')
    &&& !ends_with(w, seq!['c', 'h'])
    &&& !ends_with(w, seq!['s', 'h'])
}

/// The characters that the pattern `\s` matches: the Unicode `White_Space` property.
pub open spec fn is_white_space(c: char) -> bool {
    let u = c as u32;
    (0x09 <= u && u <= 0x0D) || u == 0x20 || u == 0x85 || u == 0xA0 || u == 0x1680 || (0x2000
        <= u && u <= 0x200A) || u == 0x2028 || u == 0x2029 || u == 0x202F || u == 0x205F || u
        == 0x3000
}

/// A character that separates words for `camelcase`: `-`, `_` or white space.
pub open spec fn is_word_separator(c: char) -> bool {
    c == '-' || c == '_' || is_white_space(c)
}

pub open spec fn is_ascii_lower(c: char) -> bool {
    'a' <= c && c <= 'z'
}

pub open spec fn is_ascii_upper(c: char) -> bool {
    'A' <= c && c <= 'Z'
}

pub open spec fn is_vowel(c: char) -> bool {
    c == 'a' || c == 'e' || c == 'i' || c == 'o' || c == 'u'
}

/// `_` and white space replaced by `-`.
pub open spec fn hyphenated(s: Seq<char>) -> Seq<char> {
    s.map_values(|c: char| if c == '_' || is_white_space(c) { '-' } else { c })
}

/// Each word separator removed, and the character after it (if any, and not a
/// line feed) upper-cased: `foo_bar` becomes `fooBar`.
pub open spec fn camel_cased(s: Seq<char>) -> Seq<char>
    decreases s.len(),
{
    if s.len() == 0 {
        seq![]
    } else if is_word_separator(s[0]) {
        if s.len() >= 2 && s[1] != '\n' {
            str_uppercase(seq![s[1]]) + camel_cased(s.skip(2))
        } else {
            camel_cased(s.skip(1))
        }
    } else {
        seq![s[0]] + camel_cased(s.skip(1))
    }
}

/// `camel_cased` on ASCII text, with upper-casing written out as the ASCII
/// mapping (`to_uppercase` states that it is this mapping on ASCII text).
pub open spec fn camel_cased_ascii(s: Seq<char>) -> Seq<char>
    decreases s.len(),
{
    if s.len() == 0 {
        seq![]
    } else if is_word_separator(s[0]) {
        if s.len() >= 2 && s[1] != '\n' {
            seq![ascii_upper(s[1])] + camel_cased_ascii(s.skip(2))
        } else {
            camel_cased_ascii(s.skip(1))
        }
    } else {
        seq![s[0]] + camel_cased_ascii(s.skip(1))
    }
}

/// One ASCII character followed by ASCII text is ASCII text.
proof fn lemma_ascii_prepend(a: Seq<char>, b: Seq<char>)
    requires
        vstd::utf8::is_ascii_chars(a),
        vstd::utf8::is_ascii_chars(b),
    ensures
        vstd::utf8::is_ascii_chars(a + b),
{
    assert forall|i: int| 0 <= i < (a + b).len() implies '\0' <= #[trigger] (a + b)[i] <= '\u{7f}' by {
        if i < a.len() {
            assert((a + b)[i] == a[i]);
        } else {
            assert((a + b)[i] == b[i - a.len()]);
        }
    }
}

proof fn lemma_ascii_skip(s: Seq<char>, k: int)
    requires
        vstd::utf8::is_ascii_chars(s),
        0 <= k <= s.len(),
    ensures
        vstd::utf8::is_ascii_chars(s.skip(k)),
{
    assert forall|i: int| 0 <= i < s.skip(k).len() implies '\0' <= #[trigger] s.skip(k)[i] <= '\u{7f}' by {
        assert(s.skip(k)[i] == s[k + i]);
    }
}

/// Camel-casing ASCII text gives ASCII text.
proof fn lemma_camel_ascii_is_ascii(s: Seq<char>)
    requires
        vstd::utf8::is_ascii_chars(s),
    ensures
        vstd::utf8::is_ascii_chars(camel_cased_ascii(s)),
    decreases s.len(),
{
    if s.len() > 0 {
        if is_word_separator(s[0]) && s.len() >= 2 && s[1] != '\n' {
            lemma_ascii_skip(s, 2);
            lemma_camel_ascii_is_ascii(s.skip(2));
            assert(vstd::utf8::is_ascii_chars(seq![ascii_upper(s[1])])) by {
                assert('\0' <= s[1] <= '\u{7f}');
            }
            lemma_ascii_prepend(seq![ascii_upper(s[1])], camel_cased_ascii(s.skip(2)));
        } else {
            lemma_ascii_skip(s, 1);
            lemma_camel_ascii_is_ascii(s.skip(1));
            if !is_word_separator(s[0]) {
                assert(vstd::utf8::is_ascii_chars(seq![s[0]])) by {
                    assert('\0' <= s[0] <= '\u{7f}');
                }
                lemma_ascii_prepend(seq![s[0]], camel_cased_ascii(s.skip(1)));
            }
        }
    }
}

/// Marking word boundaries in ASCII text gives ASCII text.
proof fn lemma_snake_marked_ascii(s: Seq<char>)
    requires
        vstd::utf8::is_ascii_chars(s),
    ensures
        vstd::utf8::is_ascii_chars(snake_marked(s)),
    decreases s.len(),
{
    if s.len() > 0 {
        if s.len() >= 2 && is_ascii_lower(s[0]) && is_ascii_upper(s[1]) {
            lemma_ascii_skip(s, 2);
            lemma_snake_marked_ascii(s.skip(2));
            assert(vstd::utf8::is_ascii_chars(seq![s[0], '_', s[1]])) by {
                assert('\0' <= s[0] <= '\u{7f}');
                assert('\0' <= s[1] <= '\u{7f}');
            }
            lemma_ascii_prepend(seq![s[0], '_', s[1]], snake_marked(s.skip(2)));
        } else {
            lemma_ascii_skip(s, 1);
            lemma_snake_marked_ascii(s.skip(1));
            assert(vstd::utf8::is_ascii_chars(seq![s[0]])) by {
                assert('\0' <= s[0] <= '\u{7f}');
            }
            lemma_ascii_prepend(seq![s[0]], snake_marked(s.skip(1)));
        }
    }
}

/// An `_` put between each ASCII lower-case letter and the ASCII upper-case
/// letter after it, pairs taken from the left without overlap.
pub open spec fn snake_marked(s: Seq<char>) -> Seq<char>
    decreases s.len(),
{
    if s.len() == 0 {
        seq![]
    } else if s.len() >= 2 && is_ascii_lower(s[0]) && is_ascii_upper(s[1]) {
        seq![s[0], '_', s[1]] + snake_marked(s.skip(2))
    } else {
        seq![s[0]] + snake_marked(s.skip(1))
    }
}

/// The part before the last `/`, or nothing.
pub open spec fn dirname(s: Seq<char>) -> Seq<char> {
    match last_index_of(s, '/') {
        Some(p) => s.take(p),
        None => seq![],
    }
}

/// The part after the last `/`, or all of it.
pub open spec fn basename(s: Seq<char>) -> Seq<char> {
    match last_index_of(s, '/') {
        Some(p) => s.skip(p + 1),
        None => s,
    }
}

/// The value without the last extension of its file name; unchanged where
/// the file name has no `.` after its first character.
pub open spec fn file_stem(s: Seq<char>) -> Seq<char> {
    let base = basename(s);
    match last_index_of(base, '.') {
        Some(q) => if q > 0 {
            match last_index_of(s, '/') {
                Some(p) => s.take(p) + seq!['/'] + base.take(q),
                None => base.take(q),
            }
        } else {
            s
        },
        None => s,
    }
}

/// The part after the last `.` of the whole value, or nothing.
pub open spec fn extension(s: Seq<char>) -> Seq<char> {
    match last_index_of(s, '.') {
        Some(p) => s.skip(p + 1),
        None => seq![],
    }
}

/// The length of the UTF-8 encoding, as `str::len` gives it.
pub open spec fn byte_len(s: Seq<char>) -> usize {
    encode_utf8(s).len() as usize
}

/// The English plural by the library's simple rules. The character looked at
/// before a final `y` is the one at the index given by the UTF-8 length minus 2.
pub open spec fn pluralized(w: Seq<char>) -> Seq<char> {
    let bl = byte_len(w);
    if ends_with(w, seq!['s']) || ends_with(w, seq!['x']) || ends_with(w, seq!['z']) || ends_with(
        w,
        seq!['c', 'h'],
    ) || ends_with(w, seq!['s', 'h']) {
        w + seq!['e', 's']
    } else if ends_with(w, seq!['y']) && bl > 1 {
        if bl - 2 < w.len() && !is_vowel(w[bl - 2]) {
            w.drop_last() + seq!['i', 'e', 's']
        } else {
            w + seq!['s']
        }
    } else if ends_with(w, seq!['f', 'e']) {
        w.take(w.len() - 2) + seq!['v', 'e', 's']
    } else if ends_with(w, seq!['f']) {
        w.drop_last() + seq!['v', 'e', 's']
    } else {
        w + seq!['s']
    }
}

/// The English singular by the library's simple rules.
pub open spec fn singularized(w: Seq<char>) -> Seq<char> {
    let bl = byte_len(w);
    if ends_with(w, seq!['i', 'e', 's']) && bl > 3 {
        w.take(w.len() - 3) + seq!['y']
    } else if ends_with(w, seq!['v', 'e', 's']) && bl > 3 {
        w.take(w.len() - 3) + seq!['f']
    } else if ends_with(w, seq!['s', 'e', 's']) && bl > 3 {
        w.take(w.len() - 2)
    } else if ends_with(w, seq!['s']) && bl > 1 {
        w.drop_last()
    } else {
        w
    }
}

/// What a transformation makes of a value.
pub open spec fn transformed(v: Seq<char>, t: Transformation) -> Seq<char> {
    match t {
        Transformation::Dot => replace_char(v, '/', seq!['.']),
        Transformation::Underscore => replace_char(v, '/', seq!['_']),
        Transformation::Backslash => replace_char(v, '/', seq!['\\']),
        Transformation::Colons => replace_char(v, '/', seq![':', ':']),
        Transformation::Hyphenate => hyphenated(v),
        Transformation::Uppercase => str_uppercase(v),
        Transformation::Lowercase => str_lowercase(v),
        Transformation::CamelCase => camel_cased(v),
        Transformation::SnakeCase => str_lowercase(snake_marked(v)),
        Transformation::Dirname => dirname(v),
        Transformation::Basename => basename(v),
        Transformation::File => file_stem(v),
        Transformation::Ext => extension(v),
        Transformation::Plural => pluralized(v),
        Transformation::Singular => singularized(v),
        Transformation::Unknown => v,
    }
}

/// What the transformation of the given name makes of a value.
pub open spec fn transformed_by_name(v: Seq<char>, name: Seq<char>) -> Seq<char> {
    transformed(v, transformation_named(name))
}

/// The transformations applied one after another, from the first name to the last.
pub open spec fn transformed_by_names(v: Seq<char>, names: Seq<Seq<char>>) -> Seq<char>
    decreases names.len(),
{
    if names.len() == 0 {
        v
    } else {
        transformed_by_name(transformed_by_names(v, names.drop_last()), names.last())
    }
}

/// Selects the transformation of the given name.
pub fn transformation_from_name(name: &[char]) -> (t: Transformation)
    ensures
        t == transformation_named(name@),
{
    if eq_chars(name, &['d', 'o', 't']) {
        Transformation::Dot
    } else if eq_chars(name, &['u', 'n', 'd', 'e', 'r', 's', 'c', 'o', 'r', 'e']) {
        Transformation::Underscore
    } else if eq_chars(name, &['b', 'a', 'c', 'k', 's', 'l', 'a', 's', 'h']) {
        Transformation::Backslash
    } else if eq_chars(name, &['c', 'o', 'l', 'o', 'n', 's']) {
        Transformation::Colons
    } else if eq_chars(name, &['h', 'y', 'p', 'h', 'e', 'n', 'a', 't', 'e']) {
        Transformation::Hyphenate
    } else if eq_chars(name, &['u', 'p', 'p', 'e', 'r', 'c', 'a', 's', 'e']) {
        Transformation::Uppercase
    } else if eq_chars(name, &['l', 'o', 'w', 'e', 'r', 'c', 'a', 's', 'e']) {
        Transformation::Lowercase
    } else if eq_chars(name, &['c', 'a', 'm', 'e', 'l', 'c', 'a', 's', 'e']) {
        Transformation::CamelCase
    } else if eq_chars(name, &['s', 'n', 'a', 'k', 'e', 'c', 'a', 's', 'e']) {
        Transformation::SnakeCase
    } else if eq_chars(name, &['d', 'i', 'r', 'n', 'a', 'm', 'e']) {
        Transformation::Dirname
    } else if eq_chars(name, &['b', 'a', 's', 'e', 'n', 'a', 'm', 'e']) {
        Transformation::Basename
    } else if eq_chars(name, &['f', 'i', 'l', 'e']) {
        Transformation::File
    } else if eq_chars(name, &['e', 'x', 't']) {
        Transformation::Ext
    } else if eq_chars(name, &['p', 'l', 'u', 'r', 'a', 'l']) {
        Transformation::Plural
    } else if eq_chars(name, &['s', 'i', 'n', 'g', 'u', 'l', 'a', 'r']) {
        Transformation::Singular
    } else {
        Transformation::Unknown
    }
}

fn white_space(c: char) -> (r: bool)
    ensures
        r == is_white_space(c),
{
    let u = c as u32;
    (0x09 <= u && u <= 0x0D) || u == 0x20 || u == 0x85 || u == 0xA0 || u == 0x1680 || (0x2000
        <= u && u <= 0x200A) || u == 0x2028 || u == 0x2029 || u == 0x202F || u == 0x205F || u
        == 0x3000
}

fn hyphenate(value: &str) -> (r: String)
    ensures
        r@ == hyphenated(value@),
{
    let v = chars_of(value);
    let mut out = String::new();
    let mut i: usize = 0;
    while i < v.len()
        invariant
            i <= v@.len(),
            out@ == hyphenated(v@.take(i as int)),
        decreases v@.len() - i,
    {
        let c = v[i];
        if c == '_' || white_space(c) {
            push_char(&mut out, '-');
        } else {
            push_char(&mut out, c);
        }
        i += 1;
        assert(out@ =~= hyphenated(v@.take(i as int)));
    }
    assert(v@.take(v@.len() as int) =~= v@);
    out
}

fn to_camel_case(value: &str) -> (r: String)
    ensures
        r@ == camel_cased(value@),
        vstd::utf8::is_ascii_chars(value@) ==> r@ == camel_cased_ascii(value@),
{
    let v = chars_of(value);
    let mut out = String::new();
    let mut i: usize = 0;
    assert(v@.skip(0) =~= v@);
    while i < v.len()
        invariant
            i <= v@.len(),
            camel_cased(v@) == out@ + camel_cased(v@.skip(i as int)),
            vstd::utf8::is_ascii_chars(v@) ==> camel_cased_ascii(v@) == out@ + camel_cased_ascii(
                v@.skip(i as int),
            ),
        decreases v@.len() - i,
    {
        let c = v[i];
        let ghost s = v@.skip(i as int);
        assert(s[0] == c);
        if c == '-' || c == '_' || white_space(c) {
            if i + 1 < v.len() && v[i + 1] != '\n' {
                assert(s[1] == v@[i + 1]);
                let mut one = String::new();
                push_char(&mut one, v[i + 1]);
                assert(one@ =~= seq![v@[i + 1]]);
                let up = to_uppercase(one.as_str());
                proof {
                    if vstd::utf8::is_ascii_chars(v@) {
                        assert('\0' <= v@[i + 1] <= '\u{7f}');
                        assert(up@ =~= seq![ascii_upper(v@[i + 1])]);
                    }
                }
                out.append(up.as_str());
                assert(s.skip(2) =~= v@.skip(i + 2));
                i += 2;
            } else {
                assert(s.skip(1) =~= v@.skip(i + 1));
                i += 1;
            }
        } else {
            push_char(&mut out, c);
            assert(s.skip(1) =~= v@.skip(i + 1));
            i += 1;
        }
    }
    assert(v@.skip(v@.len() as int) =~= Seq::<char>::empty());
    assert(out@ + Seq::<char>::empty() =~= out@);
    out
}

fn to_snake_case(value: &str) -> (r: String)
    ensures
        r@ == str_lowercase(snake_marked(value@)),
        vstd::utf8::is_ascii_chars(value@) ==> r@ == snake_marked(value@).map_values(
            |c: char| ascii_lower(c),
        ),
{
    let v = chars_of(value);
    let mut out = String::new();
    let mut i: usize = 0;
    assert(v@.skip(0) =~= v@);
    while i < v.len()
        invariant
            i <= v@.len(),
            snake_marked(v@) == out@ + snake_marked(v@.skip(i as int)),
        decreases v@.len() - i,
    {
        let c = v[i];
        let ghost s = v@.skip(i as int);
        assert(s[0] == c);
        if i + 1 < v.len() && 'a' <= c && c <= 'z' && 'A' <= v[i + 1] && v[i + 1] <= 'Z' {
            assert(s[1] == v@[i + 1]);
            push_char(&mut out, c);
            push_char(&mut out, '_');
            push_char(&mut out, v[i + 1]);
            assert(s.skip(2) =~= v@.skip(i + 2));
            i += 2;
        } else {
            push_char(&mut out, c);
            assert(s.skip(1) =~= v@.skip(i + 1));
            i += 1;
        }
    }
    assert(v@.skip(v@.len() as int) =~= Seq::<char>::empty());
    assert(out@ + Seq::<char>::empty() =~= out@);
    proof {
        if vstd::utf8::is_ascii_chars(v@) {
            lemma_snake_marked_ascii(v@);
        }
    }
    to_lowercase(out.as_str())
}

fn dirname_of(value: &str) -> (r: String)
    ensures
        r@ == dirname(value@),
{
    let v = chars_of(value);
    match rfind_char(&v, '/') {
        Some(p) => {
            proof {
                lemma_last_index_of(v@, '/');
            }
            string_of_range(&v, 0, p)
        },
        None => String::new(),
    }
}

fn basename_of(value: &str) -> (r: String)
    ensures
        r@ == basename(value@),
{
    let v = chars_of(value);
    match rfind_char(&v, '/') {
        Some(p) => {
            proof {
                lemma_last_index_of(v@, '/');
                assert(p < v@.len());
            }
            string_of_range(&v, p + 1, v.len())
        },
        None => string_of(&v),
    }
}

fn file_stem_of(value: &str) -> (r: String)
    ensures
        r@ == file_stem(value@),
{
    let v = chars_of(value);
    let base = basename_of(value);
    let b = chars_of(base.as_str());
    match rfind_char(&b, '.') {
        Some(q) => {
            proof {
                lemma_last_index_of(b@, '.');
            }
            if q > 0 {
                match rfind_char(&v, '/') {
                    Some(p) => {
                        proof {
                            lemma_last_index_of(v@, '/');
                        }
                        let mut out = string_of_range(&v, 0, p);
                        push_char(&mut out, '/');
                        let stem = string_of_range(&b, 0, q);
                        out.append(stem.as_str());
                        out
                    },
                    None => string_of_range(&b, 0, q),
                }
            } else {
                string_of(&v)
            }
        },
        None => string_of(&v),
    }
}

fn extension_of(value: &str) -> (r: String)
    ensures
        r@ == extension(value@),
{
    let v = chars_of(value);
    match rfind_char(&v, '.') {
        Some(p) => {
            proof {
                lemma_last_index_of(v@, '.');
                assert(p < v@.len());
            }
            string_of_range(&v, p + 1, v.len())
        },
        None => String::new(),
    }
}

/// The first `keep` characters of `w` followed by the given characters.
fn with_suffix(w: &Vec<char>, keep: usize, suffix: &[char]) -> (r: String)
    requires
        keep <= w.len(),
    ensures
        r@ == w@.take(keep as int) + suffix@,
{
    let mut out = string_of_range(w, 0, keep);
    let mut i: usize = 0;
    while i < suffix.len()
        invariant
            keep <= w@.len(),
            i <= suffix@.len(),
            out@ == w@.take(keep as int) + suffix@.take(i as int),
        decreases suffix@.len() - i,
    {
        push_char(&mut out, suffix[i]);
        i += 1;
        assert(out@ =~= w@.take(keep as int) + suffix@.take(i as int));
    }
    assert(suffix@.take(suffix@.len() as int) =~= suffix@);
    out
}

fn pluralize(word: &str) -> (r: String)
    ensures
        r@ == pluralized(word@),
{
    let bl = word.len();
    let w = chars_of(word);
    let n = w.len();
    assert(bl == byte_len(word@));
    assert(w@.take(n as int) =~= w@);
    assert(n > 0 ==> w@.take(n - 1) =~= w@.drop_last());
    if ends_with_char(&w, 's') || ends_with_char(&w, 'x') || ends_with_char(&w, 'z')
        || ends_with_chars(&w, &['c', 'h']) || ends_with_chars(&w, &['s', 'h']) {
        with_suffix(&w, n, &['e', 's'])
    } else if ends_with_char(&w, 'y') && bl > 1 {
        let k = bl - 2;
        if k < n && !(w[k] == 'a' || w[k] == 'e' || w[k] == 'i' || w[k] == 'o' || w[k] == 'u') {
            with_suffix(&w, n - 1, &['i', 'e', 's'])
        } else {
            with_suffix(&w, n, &['s'])
        }
    } else if ends_with_chars(&w, &['f', 'e']) {
        with_suffix(&w, n - 2, &['v', 'e', 's'])
    } else if ends_with_char(&w, 'f') {
        with_suffix(&w, n - 1, &['v', 'e', 's'])
    } else {
        with_suffix(&w, n, &['s'])
    }
}

fn singularize(word: &str) -> (r: String)
    ensures
        r@ == singularized(word@),
{
    let bl = word.len();
    let w = chars_of(word);
    let n = w.len();
    assert(bl == byte_len(word@));
    assert(w@.take(n as int) =~= w@);
    assert(n > 0 ==> w@.take(n - 1) =~= w@.drop_last());
    if ends_with_chars(&w, &['i', 'e', 's']) && bl > 3 {
        with_suffix(&w, n - 3, &['y'])
    } else if ends_with_chars(&w, &['v', 'e', 's']) && bl > 3 {
        with_suffix(&w, n - 3, &['f'])
    } else if ends_with_chars(&w, &['s', 'e', 's']) && bl > 3 {
        let r = with_suffix(&w, n - 2, &[]);
        assert(r@ =~= w@.take(n - 2));
        r
    } else if ends_with_char(&w, 's') && bl > 1 {
        let r = with_suffix(&w, n - 1, &[]);
        assert(r@ =~= w@.drop_last());
        r
    } else {
        string_of(&w)
    }
}

/// Applies one transformation, selected by name, to a value. An unknown name
/// leaves the value unchanged.
pub fn apply_single_transformation(value: &str, transform: &str) -> (r: String)
    ensures
        r@ == transformed_by_name(value@, transform@),
        vstd::utf8::is_ascii_chars(value@) ==> match transformation_named(transform@) {
            Transformation::Uppercase => r@ == value@.map_values(|c: char| ascii_upper(c)),
            Transformation::Lowercase => r@ == value@.map_values(|c: char| ascii_lower(c)),
            Transformation::CamelCase => r@ == camel_cased_ascii(value@),
            Transformation::SnakeCase => r@ == snake_marked(value@).map_values(
                |c: char| ascii_lower(c),
            ),
            _ => true,
        },
{
    let name = chars_of(transform);
    let t = transformation_from_name(name.as_slice());
    proof {
        reveal_strlit(".");
        reveal_strlit("_");
        reveal_strlit("\\");
        reveal_strlit("::");
        assert("."@ =~= seq!['.']);
        assert("_"@ =~= seq!['_']);
        assert("\\"@ =~= seq!['\\']);
        assert("::"@ =~= seq![':', ':']);
    }
    match t {
        Transformation::Dot => replace_char_exec(value, '/', "."),
        Transformation::Underscore => replace_char_exec(value, '/', "_"),
        Transformation::Backslash => replace_char_exec(value, '/', "\\"),
        Transformation::Colons => replace_char_exec(value, '/', "::"),
        Transformation::Hyphenate => hyphenate(value),
        Transformation::Uppercase => to_uppercase(value),
        Transformation::Lowercase => to_lowercase(value),
        Transformation::CamelCase => to_camel_case(value),
        Transformation::SnakeCase => to_snake_case(value),
        Transformation::Dirname => dirname_of(value),
        Transformation::Basename => basename_of(value),
        Transformation::File => file_stem_of(value),
        Transformation::Ext => extension_of(value),
        Transformation::Plural => pluralize(value),
        Transformation::Singular => singularize(value),
        Transformation::Unknown => value.to_owned(),
    }
}


/// The names of a list of transformations, as character sequences.
pub open spec fn name_views(ts: Seq<&str>) -> Seq<Seq<char>> {
    ts.map_values(|t: &str| t@)
}

/// The texts of a list of strings, as character sequences.
pub open spec fn string_views(ts: Seq<String>) -> Seq<Seq<char>> {
    ts.map_values(|t: String| t@)
}

/// Applies a sequence of transformations to a value, from the first to the last.
pub fn apply_transformations(value: &str, transformations: &[&str]) -> (r: String)
    ensures
        r@ == transformed_by_names(value@, name_views(transformations@)),
        is_snake_word(value@) && name_views(transformations@) == seq![
            camelcase_name(),
            snakecase_name(),
        ] ==> r@ == value@,
        plural_round_trips(value@) && name_views(transformations@) == seq![
            plural_name(),
            singular_name(),
        ] ==> r@ == value@,
{
    let ghost names = name_views(transformations@);
    let ghost round_trip = is_snake_word(value@) && names == seq![
        camelcase_name(),
        snakecase_name(),
    ];
    let ghost inflect = plural_round_trips(value@) && names == seq![plural_name(), singular_name()];
    proof {
        if round_trip {
            law_camelcase_then_snakecase(value@);
        }
        if inflect {
            law_singular_undoes_plural(value@);
        }
    }
    let mut result = value.to_owned();
    let mut i: usize = 0;
    assert(names.take(0) =~= Seq::<Seq<char>>::empty());
    while i < transformations.len()
        invariant
            i <= transformations@.len(),
            names == name_views(transformations@),
            result@ == transformed_by_names(value@, names.take(i as int)),
            round_trip == (is_snake_word(value@) && names == seq![
                camelcase_name(),
                snakecase_name(),
            ]),
            round_trip ==> vstd::utf8::is_ascii_chars(value@) && vstd::utf8::is_ascii_chars(
                camel_cased_ascii(value@),
            ) && snake_marked(camel_cased_ascii(value@)).map_values(|c: char| ascii_lower(c))
                == value@,
            round_trip && i == 0 ==> result@ == value@,
            round_trip && i == 1 ==> result@ == camel_cased_ascii(value@),
            round_trip && i == 2 ==> result@ == value@,
            inflect == (plural_round_trips(value@) && names == seq![plural_name(), singular_name()]),
            inflect ==> singularized(pluralized(value@)) == value@,
            inflect && i == 0 ==> result@ == value@,
            inflect && i == 1 ==> result@ == pluralized(value@),
            inflect && i == 2 ==> result@ == value@,
        decreases transformations@.len() - i,
    {
        assert(names.take(i + 1).drop_last() =~= names.take(i as int));
        proof {
            if round_trip {
                assert(names[i as int] == transformations@[i as int]@);
                assert(transformation_named(camelcase_name()) == Transformation::CamelCase);
                assert(transformation_named(snakecase_name()) == Transformation::SnakeCase);
            }
            if inflect {
                assert(names[i as int] == transformations@[i as int]@);
                assert(transformation_named(plural_name()) == Transformation::Plural);
                assert(transformation_named(singular_name()) == Transformation::Singular);
            }
        }
        result = apply_single_transformation(result.as_str(), transformations[i]);
        i += 1;
    }
    assert(names.take(transformations@.len() as int) =~= names);
    result
}

/// Applies the transformations named by `names[from..]` to a value.
fn apply_named_transformations(value: String, names: &Vec<String>, from: usize) -> (r: String)
    requires
        from <= names.len(),
    ensures
        r@ == transformed_by_names(value@, string_views(names@).skip(from as int)),
{
    let ghost all = string_views(names@);
    let mut result = value;
    let mut i: usize = from;
    assert(all.subrange(from as int, from as int) =~= Seq::<Seq<char>>::empty());
    while i < names.len()
        invariant
            from <= i <= names@.len(),
            all == string_views(names@),
            result@ == transformed_by_names(value@, all.subrange(from as int, i as int)),
        decreases names@.len() - i,
    {
        assert(all.subrange(from as int, i + 1).drop_last() =~= all.subrange(from as int, i as int));
        result = apply_single_transformation(result.as_str(), names[i].as_str());
        i += 1;
    }
    assert(all.subrange(from as int, names@.len() as int) =~= all.skip(from as int));
    result
}

/// The parts of `s` between the occurrences of `sep` (one more part than
/// there are separators).
pub open spec fn split_on(s: Seq<char>, sep: char) -> Seq<Seq<char>>
    decreases s.len(),
{
    if s.len() == 0 {
        seq![seq![]]
    } else {
        let r = split_on(s.drop_last(), sep);
        if s.last() == sep {
            r.push(seq![])
        } else {
            r.update(r.len() - 1, r.last().push(s.last()))
        }
    }
}

pub proof fn lemma_split_on_len(s: Seq<char>, sep: char)
    ensures
        split_on(s, sep).len() >= 1,
    decreases s.len(),
{
    if s.len() > 0 {
        lemma_split_on_len(s.drop_last(), sep);
    }
}

/// Splits the characters `v[start..end]` at each `sep`.
fn split_range(v: &Vec<char>, start: usize, end: usize, sep: char) -> (r: Vec<String>)
    requires
        start <= end <= v.len(),
    ensures
        string_views(r@) == split_on(v@.subrange(start as int, end as int), sep),
{
    let mut parts: Vec<String> = Vec::new();
    let mut cur = String::new();
    let mut i = start;
    assert(v@.subrange(start as int, start as int) =~= Seq::<char>::empty());
    assert(string_views(parts@).push(cur@) =~= seq![Seq::<char>::empty()]);
    while i < end
        invariant
            start <= i <= end <= v@.len(),
            string_views(parts@).push(cur@) == split_on(v@.subrange(start as int, i as int), sep),
        decreases end - i,
    {
        let ghost w = v@.subrange(start as int, i + 1);
        assert(w.drop_last() =~= v@.subrange(start as int, i as int));
        assert(w.last() == v@[i as int]);
        proof {
            lemma_split_on_len(v@.subrange(start as int, i as int), sep);
        }
        if v[i] == sep {
            let done = cur;
            parts.push(done);
            cur = String::new();
            assert(string_views(parts@).push(cur@) =~= split_on(w, sep));
        } else {
            let ghost before = string_views(parts@).push(cur@);
            push_char(&mut cur, v[i]);
            assert(string_views(parts@).push(cur@) =~= before.update(
                before.len() - 1,
                before.last().push(v@[i as int]),
            ));
        }
        i += 1;
    }
    let ghost fin = string_views(parts@).push(cur@);
    parts.push(cur);
    assert(string_views(parts@) =~= fin);
    parts
}

/// The length of a placeholder's body, given the text after its `{`: the
/// index of the first brace when that brace is `}`.
pub open spec fn placeholder_body_len(s: Seq<char>) -> Option<nat>
    decreases s.len(),
{
    if s.len() == 0 {
        None
    } else if s[0] == '}' {
        Some(0)
    } else if s[0] == '{' {
        None
    } else {
        match placeholder_body_len(s.drop_first()) {
            Some(n) => Some(n + 1),
            None => None,
        }
    }
}

pub open spec fn is_brace(c: char) -> bool {
    c == '{' || c == '}'
}

/// What `placeholder_body_len` gives, by the first brace of the text.
pub proof fn lemma_placeholder_body_len(s: Seq<char>, k: int)
    requires
        0 <= k <= s.len(),
        forall|m: int| 0 <= m < k ==> !is_brace(#[trigger] s[m]),
        k == s.len() || is_brace(s[k]),
    ensures
        placeholder_body_len(s) == (if k < s.len() && s[k] == '}' {
            Some(k as nat)
        } else {
            None::<nat>
        }),
    decreases k,
{
    if k > 0 {
        assert(forall|m: int| 0 <= m < s.len() - 1 ==> s.drop_first()[m] == s[m + 1]);
        assert(!is_brace(s[0]));
        lemma_placeholder_body_len(s.drop_first(), k - 1);
    }
}

pub proof fn lemma_placeholder_body_len_bound(s: Seq<char>)
    ensures
        placeholder_body_len(s) matches Some(n) ==> n < s.len(),
    decreases s.len(),
{
    if s.len() > 0 {
        lemma_placeholder_body_len_bound(s.drop_first());
    }
}

/// The value that a placeholder name stands for: its own value, else the
/// stem (the value of the empty name), else nothing.
pub open spec fn placeholder_value(name: Seq<char>, ph: Map<Seq<char>, Seq<char>>) -> Seq<char> {
    if ph.contains_key(name) {
        ph[name]
    } else if ph.contains_key(seq![]) {
        ph[seq![]]
    } else {
        seq![]
    }
}

/// What a placeholder with the given body (`name|t1|t2`) is replaced by.
pub open spec fn placeholder_replacement(body: Seq<char>, ph: Map<Seq<char>, Seq<char>>) -> Seq<
    char,
> {
    let parts = split_on(body, '|');
    transformed_by_names(placeholder_value(parts[0], ph), parts.skip(1))
}

/// A template with every placeholder `{...}` (a `{`, then no brace, then a
/// `}`) replaced, scanning from the left; other characters are kept.
pub open spec fn expanded(t: Seq<char>, ph: Map<Seq<char>, Seq<char>>) -> Seq<char>
    decreases t.len(),
{
    if t.len() == 0 {
        seq![]
    } else if t[0] == '{' && placeholder_body_len(t.drop_first()) is Some {
        let n = placeholder_body_len(t.drop_first()).unwrap() as int;
        proof {
            lemma_placeholder_body_len_bound(t.drop_first());
        }
        placeholder_replacement(t.subrange(1, n + 1), ph) + expanded(t.skip(n + 2), ph)
    } else {
        seq![t[0]] + expanded(t.skip(1), ph)
    }
}

/// The replacement of the placeholder whose body is `t[start..end]`.
fn replacement_of(t: &Vec<char>, start: usize, end: usize, placeholders: &Placeholders) -> (r:
    String)
    requires
        start <= end <= t.len(),
    ensures
        r@ == placeholder_replacement(t@.subrange(start as int, end as int), placeholders@),
{
    let parts = split_range(t, start, end, '|');
    proof {
        lemma_split_on_len(t@.subrange(start as int, end as int), '|');
    }
    let empty = String::new();
    let value = match placeholders.get(parts[0].as_str()) {
        Some(v) => v.clone(),
        None => match placeholders.get(empty.as_str()) {
            Some(v) => v.clone(),
            None => String::new(),
        },
    };
    apply_named_transformations(value, &parts, 1)
}

/// Expands the placeholders of a template.
///
/// `{}` stands for the stem, `{name}` for a named value (the stem where the
/// name has none), and `{name|t1|t2}` or `{|t1|t2}` for the value with the
/// transformations applied from left to right.
pub fn expand_placeholders(template: &str, placeholders: &Placeholders) -> (r: String)
    ensures
        r@ == expanded(template@, placeholders@),
{
    let t = chars_of(template);
    let ghost ph = placeholders@;
    let mut out = String::new();
    let mut i: usize = 0;
    assert(t@.skip(0) =~= t@);
    while i < t.len()
        invariant
            i <= t@.len(),
            ph == placeholders@,
            expanded(t@, ph) == out@ + expanded(t@.skip(i as int), ph),
        decreases t@.len() - i,
    {
        let ghost s = t@.skip(i as int);
        assert(s[0] == t@[i as int]);
        if t[i] == '{' {
            let mut j = i + 1;
            while j < t.len() && t[j] != '{' && t[j] != '}'
                invariant
                    i < j <= t@.len(),
                    forall|m: int| i < m < j ==> !is_brace(#[trigger] t@[m]),
                decreases t@.len() - j,
            {
                j += 1;
            }
            proof {
                let d = s.drop_first();
                assert(forall|m: int| 0 <= m < d.len() ==> d[m] == t@[i + 1 + m]);
                assert forall|m: int| 0 <= m < j - i - 1 implies !is_brace(#[trigger] d[m]) by {
                    assert(d[m] == t@[i + 1 + m]);
                }
                lemma_placeholder_body_len(d, j - i - 1);
            }
            if j < t.len() && t[j] == '}' {
                let repl = replacement_of(&t, i + 1, j, placeholders);
                assert(s.subrange(1, (j - i) as int) =~= t@.subrange(i + 1, j as int));
                assert(s.skip((j - i + 1) as int) =~= t@.skip(j + 1));
                out.append(repl.as_str());
                i = j + 1;
            } else {
                push_char(&mut out, '{');
                assert(s.skip(1) =~= t@.skip(i + 1));
                i += 1;
            }
        } else {
            push_char(&mut out, t[i]);
            assert(s.skip(1) =~= t@.skip(i + 1));
            i += 1;
        }
    }
    assert(t@.skip(t@.len() as int) =~= Seq::<char>::empty());
    assert(out@ + Seq::<char>::empty() =~= out@);
    out
}


/// Applying a list of transformations and then another list is applying the
/// two lists one after the other.
pub proof fn law_transformations_compose(v: Seq<char>, a: Seq<Seq<char>>, b: Seq<Seq<char>>)
    ensures
        transformed_by_names(v, a + b) == transformed_by_names(transformed_by_names(v, a), b),
    decreases b.len(),
{
    if b.len() == 0 {
        assert(a + b =~= a);
    } else {
        assert((a + b).drop_last() =~= a + b.drop_last());
        assert((a + b).last() == b.last());
        law_transformations_compose(v, a, b.drop_last());
    }
}

/// A name that is not one of the transformations leaves the value unchanged.
pub proof fn law_unknown_transformation_keeps_value(v: Seq<char>, name: Seq<char>)
    requires
        transformation_named(name) == Transformation::Unknown,
    ensures
        transformed_by_name(v, name) == v,
{
}

/// The separator transformations (`dot`, `underscore`, `backslash`,
/// `colons`) leave a value without `/` unchanged.
pub proof fn law_separators_without_slash(v: Seq<char>, r: Seq<char>)
    requires
        !v.contains('/'),
    ensures
        replace_char(v, '/', r) == v,
    decreases v.len(),
{
    if v.len() > 0 {
        assert(!v.drop_last().contains('/')) by {
            if v.drop_last().contains('/') {
                let k = choose|k: int| 0 <= k < v.drop_last().len() && v.drop_last()[k] == '/';
                assert(v[k] == '/');
            }
        }
        law_separators_without_slash(v.drop_last(), r);
        assert(v.last() != '/') by {
            assert(v[v.len() - 1] == v.last());
        }
        assert(v.drop_last() + seq![v.last()] =~= v);
    }
}

/// A value with a `/` is its `dirname`, a `/` and its `basename`, and the
/// `basename` holds no `/`; a value without one has an empty `dirname` and is
/// its own `basename`.
pub proof fn law_dirname_basename(v: Seq<char>)
    ensures
        v.contains('/') ==> dirname(v) + seq!['/'] + basename(v) == v,
        !basename(v).contains('/') || !v.contains('/'),
        !v.contains('/') ==> dirname(v) == Seq::<char>::empty() && basename(v) == v,
{
    lemma_last_index_of(v, '/');
    match last_index_of(v, '/') {
        Some(p) => {
            assert(v.take(p) + seq!['/'] + v.skip(p + 1) =~= v);
            assert(v.contains('/'));
            let rest = v.skip(p + 1);
            assert(!rest.contains('/')) by {
                if rest.contains('/') {
                    let k = choose|k: int| 0 <= k < rest.len() && #[trigger] rest[k] == '/';
                    assert(v[p + 1 + k] == '/');
                }
            }
        },
        None => {
            assert(!v.contains('/')) by {
                if v.contains('/') {
                    let k = choose|k: int| 0 <= k < v.len() && v[k] == '/';
                }
            }
        },
    }
}

/// Where the file name (the `basename`) has a `.` after its first character,
/// the value is its `file`, a `.` and its `ext`.
pub proof fn law_file_and_ext(v: Seq<char>)
    requires
        last_index_of(basename(v), '.') matches Some(q) && q > 0,
    ensures
        file_stem(v) + seq!['.'] + extension(v) == v,
{
    lemma_last_index_of(v, '/');
    lemma_last_index_of(v, '.');
    let base = basename(v);
    lemma_last_index_of(base, '.');
    let q = last_index_of(base, '.').unwrap();
    match last_index_of(v, '/') {
        Some(p) => {
            assert(base == v.skip(p + 1));
            assert(v[p + 1 + q] == '.');
            let e = last_index_of(v, '.').unwrap();
            assert(e == p + 1 + q) by {
                if e > p + 1 + q {
                    assert(base[e - p - 1] == '.');
                }
                if e < p + 1 + q {
                }
            }
            assert(v.take(p) + seq!['/'] + base.take(q) + seq!['.'] + v.skip(e + 1) =~= v);
        },
        None => {
            assert(base == v);
        },
    }
}

/// A word that does not end in `s`, `x`, `z`, `y`, `f`, `ch`, `sh` or `fe`
/// (the empty word too) takes a plain `s` in the plural: `month` gives
/// `months`, `cake` gives `cakes`.
pub proof fn law_plural_plain_s(w: Seq<char>)
    requires
        w.len() == 0 || !(w.last() == 's' || w.last() == 'x' || w.last() == 'z' || w.last() == 'y'
            || w.last() == 'f'),
        !ends_with(w, seq!['c', 'h']),
        !ends_with(w, seq!['s', 'h']),
        !ends_with(w, seq!['f', 'e']),
    ensures
        pluralized(w) == w + seq!['s'],
{
    let n = w.len() as int;
    assert(!ends_with(w, seq!['s'])) by {
        if ends_with(w, seq!['s']) {
            assert(w.subrange(n - 1, n as int)[0] == w.last());
        }
    }
    assert(!ends_with(w, seq!['x'])) by {
        if ends_with(w, seq!['x']) {
            assert(w.subrange(n - 1, n as int)[0] == w.last());
        }
    }
    assert(!ends_with(w, seq!['z'])) by {
        if ends_with(w, seq!['z']) {
            assert(w.subrange(n - 1, n as int)[0] == w.last());
        }
    }
    assert(!ends_with(w, seq!['y'])) by {
        if ends_with(w, seq!['y']) {
            assert(w.subrange(n - 1, n as int)[0] == w.last());
        }
    }
    assert(!ends_with(w, seq!['f'])) by {
        if ends_with(w, seq!['f']) {
            assert(w.subrange(n - 1, n as int)[0] == w.last());
        }
    }
}

/// A word whose last character is not one of `s x z y f e`, and that does not
/// end in `ch` or `sh`, takes an `s` in the plural, and the singular of that
/// plural is the word again (`month`, `user`).
pub proof fn law_plural_then_singular(w: Seq<char>)
    requires
        w.len() > 0,
        !(w.last() == 's' || w.last() == 'x' || w.last() == 'z' || w.last() == 'y' || w.last()
            == 'f' || w.last() == 'e'),
        !ends_with(w, seq!['c', 'h']),
        !ends_with(w, seq!['s', 'h']),
        encode_utf8(w).len() + 1 <= usize::MAX,
    ensures
        pluralized(w) == w + seq!['s'],
        singularized(pluralized(w)) == w,
{
    let n = w.len() as int;
    assert(!ends_with(w, seq!['f', 'e'])) by {
        if ends_with(w, seq!['f', 'e']) {
            assert(w.subrange(n - 2, n as int)[1] == w.last());
        }
    }
    law_plural_plain_s(w);
    let p = w + seq!['s'];
    assert(p.len() == n + 1);
    assert(ends_with(p, seq!['s'])) by {
        assert(p.subrange(n as int, n + 1) =~= seq!['s']);
    }
    assert(!ends_with(p, seq!['i', 'e', 's'])) by {
        if ends_with(p, seq!['i', 'e', 's']) {
            assert(p.subrange(n - 2, n + 1)[1] == w.last());
        }
    }
    assert(!ends_with(p, seq!['v', 'e', 's'])) by {
        if ends_with(p, seq!['v', 'e', 's']) {
            assert(p.subrange(n - 2, n + 1)[1] == w.last());
        }
    }
    assert(!ends_with(p, seq!['s', 'e', 's'])) by {
        if ends_with(p, seq!['s', 'e', 's']) {
            assert(p.subrange(n - 2, n + 1)[1] == w.last());
        }
    }
    lemma_encode_utf8_len(p);
    lemma_encode_utf8_len_append(w, seq!['s']);
    assert(encode_utf8(seq!['s']).len() == 1) by {
        let one = seq!['s'];
        assert(one.drop_first() =~= Seq::<char>::empty());
        assert(encode_utf8(one.drop_first()).len() == 0);
        assert(one[0] == 's');
        assert((one[0] as u32) == 115);
        assert(vstd::utf8::has_width_1_encoding(115u32));
        assert(vstd::utf8::encode_scalar(115u32).len() == 1);
    }
    assert(byte_len(p) > 1);
    assert(p.drop_last() =~= w);
}

/// A UTF-8 encoding takes at least one byte per character.
pub proof fn lemma_encode_utf8_len(s: Seq<char>)
    ensures
        encode_utf8(s).len() >= s.len(),
    decreases s.len(),
{
    if s.len() > 0 {
        lemma_encode_utf8_len(s.drop_first());
        assert(vstd::utf8::encode_scalar(s[0] as u32).len() >= 1);
    }
}

/// The encoding of two texts one after the other is their encodings one
/// after the other.
pub proof fn lemma_encode_utf8_len_append(a: Seq<char>, b: Seq<char>)
    ensures
        encode_utf8(a + b) == encode_utf8(a) + encode_utf8(b),
    decreases a.len(),
{
    if a.len() == 0 {
        assert(a + b =~= b);
        assert(encode_utf8(a) + encode_utf8(b) =~= encode_utf8(b));
    } else {
        assert((a + b).drop_first() =~= a.drop_first() + b);
        assert((a + b)[0] == a[0]);
        lemma_encode_utf8_len_append(a.drop_first(), b);
        assert(encode_utf8(a) + encode_utf8(b) =~= vstd::utf8::encode_scalar(a[0] as u32) + (
        encode_utf8(a.drop_first()) + encode_utf8(b)));
    }
}


/// Text without `{` before a template part is kept as it is.
pub proof fn lemma_expanded_plain_prefix(a: Seq<char>, b: Seq<char>, ph: Map<Seq<char>, Seq<char>>)
    requires
        !a.contains('{'),
    ensures
        expanded(a + b, ph) == a + expanded(b, ph),
    decreases a.len(),
{
    if a.len() == 0 {
        assert(a + b =~= b);
        assert(a + expanded(b, ph) =~= expanded(b, ph));
    } else {
        let t = a + b;
        assert(t[0] == a[0]);
        assert(a[0] != '{') by {
            if a[0] == '{' {
                assert(a.contains('{'));
            }
        }
        assert(t.skip(1) =~= a.skip(1) + b);
        assert(!a.skip(1).contains('{')) by {
            if a.skip(1).contains('{') {
                let k = choose|k: int| 0 <= k < a.skip(1).len() && #[trigger] a.skip(1)[k] == '{';
                assert(a[k + 1] == '{');
            }
        }
        lemma_expanded_plain_prefix(a.skip(1), b, ph);
        assert(seq![a[0]] + (a.skip(1) + expanded(b, ph)) =~= a + expanded(b, ph));
    }
}

/// A template without `{` expands to itself.
pub proof fn law_expand_without_braces(t: Seq<char>, ph: Map<Seq<char>, Seq<char>>)
    requires
        !t.contains('{'),
    ensures
        expanded(t, ph) == t,
{
    lemma_expanded_plain_prefix(t, seq![], ph);
    assert(t + Seq::<char>::empty() =~= t);
}

/// `{}` between texts without `{` stands for the stem (the value of the empty
/// name, or nothing where there is none).
pub proof fn law_expand_stem(p: Seq<char>, s: Seq<char>, ph: Map<Seq<char>, Seq<char>>)
    requires
        !p.contains('{'),
        !s.contains('{'),
    ensures
        expanded(p + seq!['{', '}'] + s, ph) == p + placeholder_value(seq![], ph) + s,
{
    let t = seq!['{', '}'] + s;
    assert(p + seq!['{', '}'] + s =~= p + t);
    lemma_expanded_plain_prefix(p, t, ph);
    let d = t.drop_first();
    assert(d[0] == '}');
    assert(placeholder_body_len(d) == Some(0nat));
    assert(t.subrange(1, 1) =~= Seq::<char>::empty());
    assert(split_on(Seq::<char>::empty(), '|') =~= seq![Seq::<char>::empty()]);
    assert(split_on(Seq::<char>::empty(), '|').skip(1) =~= Seq::<Seq<char>>::empty());
    assert(t.skip(2) =~= s);
    law_expand_without_braces(s, ph);
    assert(expanded(t, ph) == placeholder_value(seq![], ph) + s);
    assert(p + (placeholder_value(seq![], ph) + s) =~= p + placeholder_value(seq![], ph) + s);
}


/// Each name preceded by a `|`: the body of a placeholder `{|t1|t2}`.
pub open spec fn bar_joined(names: Seq<Seq<char>>) -> Seq<char>
    decreases names.len(),
{
    if names.len() == 0 {
        seq![]
    } else {
        bar_joined(names.drop_last()) + seq!['|'] + names.last()
    }
}

proof fn lemma_split_on_append_sep(s: Seq<char>, sep: char)
    ensures
        split_on(s + seq![sep], sep) == split_on(s, sep).push(seq![]),
{
    assert((s + seq![sep]).drop_last() =~= s);
}

proof fn lemma_split_on_append_plain(s: Seq<char>, b: Seq<char>, sep: char)
    requires
        !b.contains(sep),
    ensures
        split_on(s + b, sep) == split_on(s, sep).update(
            split_on(s, sep).len() - 1,
            split_on(s, sep).last() + b,
        ),
    decreases b.len(),
{
    lemma_split_on_len(s, sep);
    let r = split_on(s, sep);
    if b.len() == 0 {
        assert(s + b =~= s);
        assert(r.update(r.len() - 1, r.last() + b) =~= r);
    } else {
        let c = b.last();
        assert(c != sep) by {
            assert(b[b.len() - 1] == c);
        }
        assert(!b.drop_last().contains(sep)) by {
            if b.drop_last().contains(sep) {
                let k = choose|k: int| 0 <= k < b.drop_last().len() && #[trigger] b.drop_last()[k] == sep;
                assert(b[k] == sep);
            }
        }
        lemma_split_on_append_plain(s, b.drop_last(), sep);
        assert((s + b).drop_last() =~= s + b.drop_last());
        assert((s + b).last() == c);
        let q = r.update(r.len() - 1, r.last() + b.drop_last());
        assert(q.update(q.len() - 1, q.last().push(c)) =~= r.update(r.len() - 1, r.last() + b)) by {
            assert((r.last() + b.drop_last()).push(c) =~= r.last() + b);
        }
    }
}

proof fn lemma_split_on_bar_joined(names: Seq<Seq<char>>)
    requires
        forall|i: int| 0 <= i < names.len() ==> !(#[trigger] names[i]).contains('|'),
    ensures
        split_on(bar_joined(names), '|') == seq![Seq::<char>::empty()] + names,
    decreases names.len(),
{
    if names.len() == 0 {
        assert(split_on(Seq::<char>::empty(), '|') =~= seq![Seq::<char>::empty()]);
        assert(seq![Seq::<char>::empty()] + names =~= seq![Seq::<char>::empty()]);
    } else {
        let init = names.drop_last();
        assert forall|i: int| 0 <= i < init.len() implies !(#[trigger] init[i]).contains('|') by {
            assert(init[i] == names[i]);
        }
        lemma_split_on_bar_joined(init);
        let a = bar_joined(init);
        lemma_split_on_append_sep(a, '|');
        assert(!names.last().contains('|')) by {
            assert(names[names.len() - 1] == names.last());
        }
        lemma_split_on_append_plain(a + seq!['|'], names.last(), '|');
        let r = split_on(a, '|').push(seq![]);
        assert(r.update(r.len() - 1, r.last() + names.last()) =~= seq![Seq::<char>::empty()]
            + names) by {
            assert(Seq::<char>::empty() + names.last() =~= names.last());
        }
    }
}

/// A placeholder `{|t1|...|tn}` (`{}` where there are no names) stands for
/// the stem with the transformations `t1`, ..., `tn` applied in turn.
pub proof fn law_expand_chained(names: Seq<Seq<char>>, ph: Map<Seq<char>, Seq<char>>)
    requires
        forall|i: int|
            0 <= i < names.len() ==> !(#[trigger] names[i]).contains('|') && !names[i].contains(
                '{',
            ) && !names[i].contains('}'),
    ensures
        expanded(seq!['{'] + bar_joined(names) + seq!['}'], ph) == transformed_by_names(
            placeholder_value(seq![], ph),
            names,
        ),
{
    let body = bar_joined(names);
    lemma_bar_joined_no_brace(names);
    let t = seq!['{'] + body + seq!['}'];
    let d = t.drop_first();
    assert(d =~= body + seq!['}']);
    assert forall|m: int| 0 <= m < body.len() implies !is_brace(#[trigger] d[m]) by {
        assert(d[m] == body[m]);
        if is_brace(body[m]) {
            assert(body.contains(body[m]));
        }
    }
    assert(d[body.len() as int] == '}');
    lemma_placeholder_body_len(d, body.len() as int);
    assert(placeholder_body_len(t.drop_first()) == Some(body.len()));
    assert(t[0] == '{');
    assert(t.subrange(1, body.len() + 1 as int) =~= body);
    assert(t.skip(body.len() + 2 as int) =~= Seq::<char>::empty());
    lemma_split_on_bar_joined(names);
    let parts = split_on(body, '|');
    assert(parts[0] == Seq::<char>::empty());
    assert(parts.skip(1) =~= names);
    assert(expanded(Seq::<char>::empty(), ph) == Seq::<char>::empty());
    assert(expanded(t, ph) == placeholder_replacement(body, ph) + expanded(
        Seq::<char>::empty(),
        ph,
    ));
    assert(placeholder_replacement(body, ph) + Seq::<char>::empty() =~= placeholder_replacement(
        body,
        ph,
    ));
}

proof fn lemma_bar_joined_no_brace(names: Seq<Seq<char>>)
    requires
        forall|i: int|
            0 <= i < names.len() ==> !(#[trigger] names[i]).contains('{') && !names[i].contains(
                '}',
            ),
    ensures
        !bar_joined(names).contains('{'),
        !bar_joined(names).contains('}'),
    decreases names.len(),
{
    if names.len() > 0 {
        let init = names.drop_last();
        assert forall|i: int| 0 <= i < init.len() implies !(#[trigger] init[i]).contains('{')
            && !init[i].contains('}') by {
            assert(init[i] == names[i]);
        }
        lemma_bar_joined_no_brace(init);
        let a = bar_joined(init);
        let n = names.last();
        assert(n == names[names.len() - 1]);
        let j = a + seq!['|'] + n;
        assert forall|k: int| 0 <= k < j.len() implies j[k] != '{' && j[k] != '}' by {
            if k < a.len() {
                assert(j[k] == a[k]);
                if j[k] == '{' || j[k] == '}' {
                    assert(a.contains(a[k]));
                }
            } else if k > a.len() {
                assert(j[k] == n[k - a.len() - 1]);
                if j[k] == '{' || j[k] == '}' {
                    assert(n.contains(n[k - a.len() - 1]));
                }
            }
        }
    }
}


proof fn lemma_ends_with_at(s: Seq<char>, t: Seq<char>)
    ensures
        ends_with(s, t) ==> forall|k: int|
            0 <= k < t.len() ==> #[trigger] t[k] == s[s.len() - t.len() + k],
{
    if ends_with(s, t) {
        assert forall|k: int| 0 <= k < t.len() implies #[trigger] t[k] == s[s.len() - t.len() + k] by {
            assert(s.subrange(s.len() - t.len(), s.len() as int)[k] == s[s.len() - t.len() + k]);
        }
    }
}

/// An ASCII text's `byte_len` is its length.
proof fn lemma_ascii_byte_len(s: Seq<char>)
    requires
        vstd::utf8::is_ascii_chars(s),
        s.len() <= usize::MAX,
    ensures
        byte_len(s) == s.len(),
{
    vstd::utf8::is_ascii_chars_encode_utf8(s);
}

/// The singular of the plural of an ASCII word of two or more letters that
/// does not end in `x`, `z`, `e`, `ch` or `sh` is the word again (`user`,
/// `bus`, `day`, `category`, `leaf`, `month`).
pub proof fn law_singular_undoes_plural(w: Seq<char>)
    requires
        plural_round_trips(w),
    ensures
        singularized(pluralized(w)) == w,
{
    let n = w.len() as int;
    let last = w.last();
    assert(w[n - 1] == last);
    lemma_ascii_byte_len(w);
    lemma_ends_with_at(w, seq!['x']);
    lemma_ends_with_at(w, seq!['z']);
    lemma_ends_with_at(w, seq!['c', 'h']);
    lemma_ends_with_at(w, seq!['s', 'h']);
    lemma_ends_with_at(w, seq!['f', 'e']);
    lemma_ends_with_at(w, seq!['s']);
    lemma_ends_with_at(w, seq!['y']);
    lemma_ends_with_at(w, seq!['f']);
    assert(seq!['x'][0] == 'x');
    assert(seq!['z'][0] == 'z');
    assert(seq!['c', 'h'][1] == 'h');
    assert(seq!['s', 'h'][1] == 'h');
    assert(seq!['f', 'e'][1] == 'e');
    assert(seq!['s'][0] == 's');
    assert(seq!['y'][0] == 'y');
    assert(seq!['f'][0] == 'f');
    assert(!ends_with(w, seq!['x']));
    assert(!ends_with(w, seq!['z']));
    assert(!ends_with(w, seq!['c', 'h']));
    assert(!ends_with(w, seq!['s', 'h']));
    assert(!ends_with(w, seq!['f', 'e']));
    if last == 's' {
        assert(ends_with(w, seq!['s'])) by {
            assert(w.subrange(n - 1, n) =~= seq!['s']);
        }
        let p = w + seq!['e', 's'];
        assert(pluralized(w) == p);
        assert(vstd::utf8::is_ascii_chars(p)) by {
            assert forall|i: int| 0 <= i < p.len() implies '\0' <= #[trigger] p[i] <= '\u{7f}' by {
                if i < n {
                    assert(p[i] == w[i]);
                }
            }
        }
        lemma_ascii_byte_len(p);
        lemma_ends_with_at(p, seq!['i', 'e', 's']);
        lemma_ends_with_at(p, seq!['v', 'e', 's']);
        assert(seq!['i', 'e', 's'][0] == 'i');
        assert(seq!['v', 'e', 's'][0] == 'v');
        assert(p[n - 1] == 's');
        assert(ends_with(p, seq!['s', 'e', 's'])) by {
            assert(p.subrange(n - 1, n + 2) =~= seq!['s', 'e', 's']);
        }
        assert(p.take(n) =~= w);
    } else if last == 'y' {
        assert(!ends_with(w, seq!['s']));
        assert(ends_with(w, seq!['y'])) by {
            assert(w.subrange(n - 1, n) =~= seq!['y']);
        }
        if !is_vowel(w[n - 2]) {
            let p = w.drop_last() + seq!['i', 'e', 's'];
            assert(pluralized(w) == p);
            assert(vstd::utf8::is_ascii_chars(p)) by {
                assert forall|i: int| 0 <= i < p.len() implies '\0' <= #[trigger] p[i] <= '\u{7f}' by {
                    if i < n - 1 {
                        assert(p[i] == w[i]);
                    }
                }
            }
            lemma_ascii_byte_len(p);
            assert(ends_with(p, seq!['i', 'e', 's'])) by {
                assert(p.subrange(n - 1, n + 2) =~= seq!['i', 'e', 's']);
            }
            assert(p.take(n - 1) + seq!['y'] =~= w);
        } else {
            let p = w + seq!['s'];
            assert(pluralized(w) == p);
            assert(vstd::utf8::is_ascii_chars(p)) by {
                assert forall|i: int| 0 <= i < p.len() implies '\0' <= #[trigger] p[i] <= '\u{7f}' by {
                    if i < n {
                        assert(p[i] == w[i]);
                    }
                }
            }
            lemma_ascii_byte_len(p);
            lemma_ends_with_at(p, seq!['i', 'e', 's']);
            lemma_ends_with_at(p, seq!['v', 'e', 's']);
            lemma_ends_with_at(p, seq!['s', 'e', 's']);
            assert(seq!['i', 'e', 's'][1] == 'e');
            assert(seq!['v', 'e', 's'][1] == 'e');
            assert(seq!['s', 'e', 's'][1] == 'e');
            assert(p[n - 1] == 'y');
            assert(ends_with(p, seq!['s'])) by {
                assert(p.subrange(n, n + 1) =~= seq!['s']);
            }
            assert(p.drop_last() =~= w);
        }
    } else if last == 'f' {
        assert(!ends_with(w, seq!['s']));
        assert(!ends_with(w, seq!['y']));
        assert(ends_with(w, seq!['f'])) by {
            assert(w.subrange(n - 1, n) =~= seq!['f']);
        }
        let p = w.drop_last() + seq!['v', 'e', 's'];
        assert(pluralized(w) == p);
        assert(vstd::utf8::is_ascii_chars(p)) by {
            assert forall|i: int| 0 <= i < p.len() implies '\0' <= #[trigger] p[i] <= '\u{7f}' by {
                if i < n - 1 {
                    assert(p[i] == w[i]);
                }
            }
        }
        lemma_ascii_byte_len(p);
        lemma_ends_with_at(p, seq!['i', 'e', 's']);
        assert(seq!['i', 'e', 's'][0] == 'i');
        assert(p[n - 1] == 'v');
        assert(ends_with(p, seq!['v', 'e', 's'])) by {
            assert(p.subrange(n - 1, n + 2) =~= seq!['v', 'e', 's']);
        }
        assert(p.take(n - 1) + seq!['f'] =~= w);
    } else {
        vstd::utf8::is_ascii_chars_encode_utf8(w);
        law_plural_then_singular(w);
    }
}


/// A lower-case snake word: ASCII lower-case letters and `_`, where each `_`
/// has a letter before it and two letters after it (`user_profile`, `a_bc`).
pub open spec fn is_snake_word(w: Seq<char>) -> bool {
    &&& forall|i: int| 0 <= i < w.len() ==> is_ascii_lower(#[trigger] w[i]) || w[i] == '_'
    &&& forall|i: int|
        0 <= i < w.len() && #[trigger] w[i] == '_' ==> 0 < i && i + 2 < w.len() && is_ascii_lower(
            w[i - 1],
        ) && is_ascii_lower(w[i + 1]) && is_ascii_lower(w[i + 2])
}

/// The word with each letter after a `_` in upper case.
pub open spec fn upper_after_underscore(w: Seq<char>) -> Seq<char> {
    Seq::new(
        w.len(),
        |i: int|
            if i > 0 && w[i - 1] == '_' {
                ascii_upper(w[i])
            } else {
                w[i]
            },
    )
}

proof fn lemma_snake_word_skip(w: Seq<char>, k: int)
    requires
        is_snake_word(w),
        0 <= k <= w.len(),
        k < w.len() ==> w[k] != '_',
    ensures
        is_snake_word(w.skip(k)),
{
    let r = w.skip(k);
    assert forall|i: int| 0 <= i < r.len() implies is_ascii_lower(#[trigger] r[i]) || r[i] == '_' by {
        assert(r[i] == w[k + i]);
    }
    assert forall|i: int| 0 <= i < r.len() && #[trigger] r[i] == '_' implies 0 < i && i + 2 < r.len()
        && is_ascii_lower(r[i - 1]) && is_ascii_lower(r[i + 1]) && is_ascii_lower(r[i + 2]) by {
        assert(r[i] == w[k + i]);
        assert(w[k + i] == '_');
        assert(r[i - 1] == w[k + i - 1]);
        assert(r[i + 1] == w[k + i + 1]);
        assert(r[i + 2] == w[k + i + 2]);
    }
}

/// Camel-casing a snake word and then marking its word boundaries gives the
/// word with each letter after a `_` upper-cased.
proof fn lemma_camel_then_mark(w: Seq<char>)
    requires
        is_snake_word(w),
    ensures
        snake_marked(camel_cased_ascii(w)) == upper_after_underscore(w),
    decreases w.len(),
{
    if w.len() == 0 {
        assert(upper_after_underscore(w) =~= Seq::<char>::empty());
    } else {
        let w0 = w[0];
        assert(is_ascii_lower(w0)) by {
            if w0 == '_' {
                assert(w[0] == '_');
            }
        }
        if w.len() == 1 {
            assert(w.skip(1) =~= Seq::<char>::empty());
            assert(camel_cased_ascii(w) == seq![w0] + camel_cased_ascii(w.skip(1)));
            assert(camel_cased_ascii(w) =~= seq![w0]);
            assert(seq![w0].skip(1) =~= Seq::<char>::empty());
            assert(snake_marked(seq![w0].skip(1)) == Seq::<char>::empty());
            assert(seq![w0][0] == w0);
            assert(snake_marked(seq![w0]) =~= seq![w0]);
            assert(upper_after_underscore(w) =~= seq![w0]);
        } else if w[1] != '_' {
            let r = w.skip(1);
            lemma_snake_word_skip(w, 1);
            lemma_camel_then_mark(r);
            assert(r[0] == w[1]);
            assert(is_ascii_lower(w[1]));
            assert(camel_cased_ascii(w) == seq![w0] + camel_cased_ascii(r));
            let cr = camel_cased_ascii(r);
            assert(cr == seq![w[1]] + camel_cased_ascii(r.skip(1)));
            let sq = seq![w0] + cr;
            assert(sq[0] == w0);
            assert(sq[1] == w[1]);
            assert(!is_ascii_upper(w[1]));
            assert(sq.skip(1) =~= cr);
            assert(snake_marked(sq) == seq![w0] + snake_marked(cr));
            assert(upper_after_underscore(w) =~= seq![w0] + upper_after_underscore(r));
        } else {
            assert(w[1] == '_');
            let w2 = w[2];
            assert(is_ascii_lower(w2));
            assert(is_ascii_lower(w[3]));
            let r = w.skip(3);
            lemma_snake_word_skip(w, 3);
            lemma_camel_then_mark(r);
            let s1 = w.skip(1);
            assert(s1[0] == '_');
            assert(s1[1] == w2);
            assert(s1.skip(2) =~= r);
            lemma_ascii_case_round_trip(w2);
            let up = ascii_upper(w2);
            assert(camel_cased_ascii(s1) == seq![up] + camel_cased_ascii(r));
            assert(camel_cased_ascii(w) == seq![w0] + camel_cased_ascii(s1));
            let cr = camel_cased_ascii(r);
            let sq = seq![w0, up] + cr;
            assert(camel_cased_ascii(w) =~= sq);
            assert(sq[0] == w0);
            assert(sq[1] == up);
            assert(sq.skip(2) =~= cr);
            assert(snake_marked(sq) == seq![w0, '_', up] + snake_marked(cr));
            assert(upper_after_underscore(w) =~= seq![w0, '_', up] + upper_after_underscore(r));
        }
    }
}

/// A snake word is ASCII text.
proof fn lemma_snake_word_ascii(w: Seq<char>)
    requires
        is_snake_word(w),
    ensures
        vstd::utf8::is_ascii_chars(w),
{
    assert forall|i: int| 0 <= i < w.len() implies '\0' <= #[trigger] w[i] <= '\u{7f}' by {
        assert(is_ascii_lower(w[i]) || w[i] == '_');
    }
}

/// Camel-casing a lower-case snake word and snake-casing the result gives the
/// word back (`user_profile` to `userProfile` and back). Both steps are the
/// ASCII forms of `camelcase` and `snakecase`, which is what they do on ASCII
/// text (see `apply_single_transformation`).
pub proof fn law_camelcase_then_snakecase(w: Seq<char>)
    requires
        is_snake_word(w),
    ensures
        vstd::utf8::is_ascii_chars(w),
        vstd::utf8::is_ascii_chars(camel_cased_ascii(w)),
        snake_marked(camel_cased_ascii(w)).map_values(|c: char| ascii_lower(c)) == w,
{
    lemma_snake_word_ascii(w);
    lemma_camel_ascii_is_ascii(w);
    lemma_camel_then_mark(w);
    let m = upper_after_underscore(w);
    assert forall|i: int| 0 <= i < w.len() implies #[trigger] ascii_lower(m[i]) == w[i] by {
        if i > 0 && w[i - 1] == '_' {
            assert(is_ascii_lower(w[i]));
            lemma_ascii_case_round_trip(w[i]);
        } else {
            if is_ascii_lower(w[i]) {
                lemma_ascii_case_round_trip(w[i]);
            }
        }
    }
    assert(m.map_values(|c: char| ascii_lower(c)) =~= w);
}

/// `file` only cuts a tail off the value: the result is a prefix of the
/// value that keeps the whole directory part (up to and with the last `/`),
/// and where the file name holds no `.` the result is the value itself
/// (`components/Button` stays `components/Button`).
pub proof fn law_file_keeps_directory(v: Seq<char>)
    ensures
        file_stem(v).len() <= v.len(),
        file_stem(v) == v.take(file_stem(v).len() as int),
        v.contains('/') ==> dirname(v).len() < file_stem(v).len() && file_stem(v).take(
            dirname(v).len() + 1 as int,
        ) == dirname(v) + seq!['/'],
        !basename(v).contains('.') ==> file_stem(v) == v,
{
    lemma_last_index_of(v, '/');
    let base = basename(v);
    lemma_last_index_of(base, '.');
    if v.contains('/') {
        assert(last_index_of(v, '/') is Some) by {
            if last_index_of(v, '/') is None {
                let k = choose|k: int| 0 <= k < v.len() && v[k] == '/';
            }
        }
    }
    match last_index_of(base, '.') {
        Some(q) => {
            assert(base.contains('.')) by {
                assert(base[q] == '.');
            }
            if q > 0 {
                match last_index_of(v, '/') {
                    Some(p) => {
                        assert(base == v.skip(p + 1));
                        assert(v.take(p) + seq!['/'] + base.take(q) =~= v.take(p + 1 + q));
                        assert(v.take(p + 1 + q).take(p + 1) =~= v.take(p) + seq!['/']);
                    },
                    None => {
                        assert(base == v);
                        assert(base.take(q) =~= v.take(q));
                    },
                }
            } else {
                assert(v.take(v.len() as int) =~= v);
                if let Some(p) = last_index_of(v, '/') {
                    assert(v.take(p + 1) =~= v.take(p) + seq!['/']);
                }
            }
        },
        None => {
            assert(v.take(v.len() as int) =~= v);
            if let Some(p) = last_index_of(v, '/') {
                assert(v.take(p + 1) =~= v.take(p) + seq!['/']);
            }
        },
    }
}

/// `camelcase` changes nothing in text that holds no `-`, `_` or white space:
/// other characters, `/` among them, never separate words
/// (`admin/user` stays `admin/user`).
pub proof fn law_camelcase_without_separators(v: Seq<char>)
    requires
        forall|i: int|
            0 <= i < v.len() ==> !(#[trigger] v[i] == '-' || v[i] == '_' || is_white_space(v[i])),
    ensures
        camel_cased(v) == v,
    decreases v.len(),
{
    if v.len() > 0 {
        let r = v.skip(1);
        assert forall|i: int| 0 <= i < r.len() implies !(#[trigger] r[i] == '-' || r[i] == '_'
            || is_white_space(r[i])) by {
            assert(r[i] == v[i + 1]);
        }
        law_camelcase_without_separators(r);
        assert(!(v[0] == '-' || v[0] == '_' || is_white_space(v[0])));
        assert(seq![v[0]] + r =~= v);
    }
}

/// `camelcase` works on the words of a value independently where a part of
/// it ends in a character other than `-`, `_` or white space: the camel-cased
/// whole is the camel-cased part followed by the camel-cased rest
/// (`admin/` then `user_profile` gives `admin/userProfile`).
pub proof fn law_camelcase_splits(a: Seq<char>, b: Seq<char>)
    requires
        a.len() > 0,
        !(a.last() == '-' || a.last() == '_' || is_white_space(a.last())),
    ensures
        camel_cased(a + b) == camel_cased(a) + camel_cased(b),
    decreases a.len(),
{
    let ab = a + b;
    assert(ab[0] == a[0]);
    if is_word_separator(a[0]) {
        assert(a.len() >= 2);
        assert(ab[1] == a[1]);
        if a[1] != '\n' {
            let up = str_uppercase(seq![a[1]]);
            assert(seq![ab[1]] =~= seq![a[1]]);
            assert(camel_cased(ab) == up + camel_cased(ab.skip(2)));
            assert(camel_cased(a) == up + camel_cased(a.skip(2)));
            if a.len() == 2 {
                assert(ab.skip(2) =~= b);
                assert(a.skip(2) =~= Seq::<char>::empty());
                assert(camel_cased(a.skip(2)) =~= Seq::<char>::empty());
                assert(up + camel_cased(b) =~= up + Seq::<char>::empty() + camel_cased(b));
            } else {
                assert(ab.skip(2) =~= a.skip(2) + b);
                assert(a.skip(2).last() == a.last());
                law_camelcase_splits(a.skip(2), b);
                assert(up + (camel_cased(a.skip(2)) + camel_cased(b)) =~= up + camel_cased(
                    a.skip(2),
                ) + camel_cased(b));
            }
        } else {
            assert(camel_cased(ab) == camel_cased(ab.skip(1)));
            assert(camel_cased(a) == camel_cased(a.skip(1)));
            assert(ab.skip(1) =~= a.skip(1) + b);
            assert(a.skip(1).last() == a.last());
            law_camelcase_splits(a.skip(1), b);
        }
    } else {
        assert(camel_cased(ab) == seq![a[0]] + camel_cased(ab.skip(1)));
        assert(camel_cased(a) == seq![a[0]] + camel_cased(a.skip(1)));
        if a.len() == 1 {
            assert(ab.skip(1) =~= b);
            assert(a.skip(1) =~= Seq::<char>::empty());
            assert(camel_cased(a.skip(1)) =~= Seq::<char>::empty());
            assert(seq![a[0]] + camel_cased(b) =~= seq![a[0]] + Seq::<char>::empty() + camel_cased(
                b,
            ));
        } else {
            assert(ab.skip(1) =~= a.skip(1) + b);
            assert(a.skip(1).last() == a.last());
            law_camelcase_splits(a.skip(1), b);
            assert(seq![a[0]] + (camel_cased(a.skip(1)) + camel_cased(b)) =~= seq![a[0]]
                + camel_cased(a.skip(1)) + camel_cased(b));
        }
    }
}

/// `hyphenate` keeps the length, leaves no `_` and no white space, and keeps
/// every other character where it was (`/` among them).
pub proof fn law_hyphenate_keeps_other_characters(v: Seq<char>)
    ensures
        hyphenated(v).len() == v.len(),
        forall|i: int|
            0 <= i < v.len() ==> (#[trigger] hyphenated(v)[i] == (if v[i] == '_' || is_white_space(
                v[i],
            ) {
                '-'
            } else {
                v[i]
            })),
        !hyphenated(v).contains('_'),
{
    if hyphenated(v).contains('_') {
        let k = choose|k: int| 0 <= k < hyphenated(v).len() && hyphenated(v)[k] == '_';
        assert(hyphenated(v)[k] == '_');
    }
}

/// Marking word boundaries leaves text without ASCII upper-case letters
/// unchanged (`user_profile`, `admin/user`).
pub proof fn law_snakecase_marks_only_before_capitals(v: Seq<char>)
    requires
        forall|i: int| 0 <= i < v.len() ==> !('A' <= #[trigger] v[i] && v[i] <= 'Z'),
    ensures
        snake_marked(v) == v,
    decreases v.len(),
{
    if v.len() > 0 {
        let r = v.skip(1);
        assert forall|i: int| 0 <= i < r.len() implies !('A' <= #[trigger] r[i] && r[i] <= 'Z') by {
            assert(r[i] == v[i + 1]);
        }
        law_snakecase_marks_only_before_capitals(r);
        if v.len() >= 2 {
            assert(!('A' <= v[1] && v[1] <= 'Z'));
        }
        assert(seq![v[0]] + r =~= v);
    }
}

/// Word boundaries are marked within the parts of a value independently
/// where the first part does not end in an ASCII lower-case letter.
pub proof fn law_snakecase_splits(a: Seq<char>, b: Seq<char>)
    requires
        a.len() > 0,
        !('a' <= a.last() && a.last() <= 'z'),
    ensures
        snake_marked(a + b) == snake_marked(a) + snake_marked(b),
    decreases a.len(),
{
    let ab = a + b;
    assert(ab[0] == a[0]);
    if a.len() >= 2 && is_ascii_lower(a[0]) && is_ascii_upper(a[1]) {
        assert(ab[1] == a[1]);
        let head = seq![a[0], '_', a[1]];
        assert(snake_marked(ab) == head + snake_marked(ab.skip(2)));
        assert(snake_marked(a) == head + snake_marked(a.skip(2)));
        if a.len() == 2 {
            assert(ab.skip(2) =~= b);
            assert(a.skip(2) =~= Seq::<char>::empty());
            assert(snake_marked(a.skip(2)) =~= Seq::<char>::empty());
            assert(head + snake_marked(b) =~= head + Seq::<char>::empty() + snake_marked(b));
        } else {
            assert(ab.skip(2) =~= a.skip(2) + b);
            assert(a.skip(2).last() == a.last());
            law_snakecase_splits(a.skip(2), b);
            assert(head + (snake_marked(a.skip(2)) + snake_marked(b)) =~= head + snake_marked(
                a.skip(2),
            ) + snake_marked(b));
        }
    } else {
        if a.len() >= 2 {
            assert(ab[1] == a[1]);
        } else {
            assert(!is_ascii_lower(a[0]));
        }
        assert(snake_marked(ab) == seq![a[0]] + snake_marked(ab.skip(1)));
        assert(snake_marked(a) == seq![a[0]] + snake_marked(a.skip(1)));
        if a.len() == 1 {
            assert(ab.skip(1) =~= b);
            assert(a.skip(1) =~= Seq::<char>::empty());
            assert(snake_marked(a.skip(1)) =~= Seq::<char>::empty());
            assert(seq![a[0]] + snake_marked(b) =~= seq![a[0]] + Seq::<char>::empty()
                + snake_marked(b));
        } else {
            assert(ab.skip(1) =~= a.skip(1) + b);
            assert(a.skip(1).last() == a.last());
            law_snakecase_splits(a.skip(1), b);
            assert(seq![a[0]] + (snake_marked(a.skip(1)) + snake_marked(b)) =~= seq![a[0]]
                + snake_marked(a.skip(1)) + snake_marked(b));
        }
    }
}

/// The extension holds no `.`; a value with a `.` ends in a `.` followed by
/// its extension, and a value without one has an empty extension.
pub proof fn law_extension_is_last_part(v: Seq<char>)
    ensures
        !extension(v).contains('.'),
        v.contains('.') ==> v.len() > extension(v).len() && v.skip(
            v.len() - extension(v).len() - 1,
        ) == seq!['.'] + extension(v),
        !v.contains('.') ==> extension(v).len() == 0,
{
    lemma_last_index_of(v, '.');
    match last_index_of(v, '.') {
        Some(p) => {
            let e = v.skip(p + 1);
            if e.contains('.') {
                let k = choose|k: int| 0 <= k < e.len() && e[k] == '.';
                assert(v[p + 1 + k] == '.');
            }
            assert(v.skip(p) =~= seq!['.'] + e);
        },
        None => {
            if v.contains('.') {
                let k = choose|k: int| 0 <= k < v.len() && v[k] == '.';
            }
        },
    }
}

} // verus!

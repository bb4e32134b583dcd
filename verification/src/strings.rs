//! Character-level helpers shared by the transformations, the placeholder
//! expander and the glob matcher. Text is modelled as `Seq<char>`.
use vstd::prelude::*;

verus! {

/// What `str::to_uppercase` returns for a string (full Unicode case mapping).
pub uninterp spec fn str_uppercase(s: Seq<char>) -> Seq<char>;

/// What `str::to_lowercase` returns for a string (full Unicode case mapping).
pub uninterp spec fn str_lowercase(s: Seq<char>) -> Seq<char>;

/// `a` to `z` mapped to `A` to `Z`; any other character kept.
pub open spec fn ascii_upper(c: char) -> char {
    if 'a' <= c && c <= 'z' {
        ((c as u32) - 32) as char
    } else {
        c
    }
}

/// `A` to `Z` mapped to `a` to `z`; any other character kept.
pub open spec fn ascii_lower(c: char) -> char {
    if 'A' <= c && c <= 'Z' {
        ((c as u32) + 32) as char
    } else {
        c
    }
}

/// Lower-casing the upper case of an ASCII lower-case letter gives it back;
/// the upper case is an ASCII upper-case letter.
pub proof fn lemma_ascii_case_round_trip(c: char)
    requires
        'a' <= c && c <= 'z',
    ensures
        'A' <= ascii_upper(c) && ascii_upper(c) <= 'Z',
        ascii_lower(ascii_upper(c)) == c,
        ascii_lower(c) == c,
{
}

/// Calls `str::to_uppercase`. The contract claims that the result is
/// `str_uppercase` of the input (the same text always gives the same result),
/// and that on ASCII text it maps `a` to `z` to `A` to `Z` and keeps every
/// other character, as the Unicode case mapping that the documentation refers
/// to does there. What it does to other characters is not stated.
#[verifier::external_body]
pub(crate) fn to_uppercase(s: &str) -> (r: String)
    ensures
        r@ == str_uppercase(s@),
        vstd::utf8::is_ascii_chars(s@) ==> r@ == s@.map_values(|c: char| ascii_upper(c)),
{
    s.to_uppercase()
}

/// Calls `str::to_lowercase`. The contract claims that the result is
/// `str_lowercase` of the input (the same text always gives the same result),
/// and that on ASCII text it maps `A` to `Z` to `a` to `z` and keeps every
/// other character, as the Unicode case mapping that the documentation refers
/// to does there. What it does to other characters is not stated.
#[verifier::external_body]
pub(crate) fn to_lowercase(s: &str) -> (r: String)
    ensures
        r@ == str_lowercase(s@),
        vstd::utf8::is_ascii_chars(s@) ==> r@ == s@.map_values(|c: char| ascii_lower(c)),
{
    s.to_lowercase()
}

/// Calls `String::push`; the contract claims that the character is appended
/// at the end and nothing else changes.
#[verifier::external_body]
pub(crate) fn push_char(s: &mut String, c: char)
    ensures
        final(s)@ == old(s)@.push(c),
{
    s.push(c);
}

/// The characters of a string slice, in order.
pub fn chars_of(s: &str) -> (r: Vec<char>)
    ensures
        r@ == s@,
{
    let mut r: Vec<char> = Vec::new();
    for c in it: s.chars()
        invariant
            r@ == it.seq().take(it.index() as int),
    {
        r.push(c);
    }
    r
}

/// The string made of the characters of `v[start..end]`.
pub fn string_of_range(v: &Vec<char>, start: usize, end: usize) -> (r: String)
    requires
        start <= end <= v.len(),
    ensures
        r@ == v@.subrange(start as int, end as int),
{
    let mut r = String::new();
    let mut i = start;
    while i < end
        invariant
            start <= i <= end <= v.len(),
            r@ == v@.subrange(start as int, i as int),
        decreases end - i,
    {
        push_char(&mut r, v[i]);
        i += 1;
        assert(r@ =~= v@.subrange(start as int, i as int));
    }
    r
}

/// The string made of all the characters of `v`.
pub fn string_of(v: &Vec<char>) -> (r: String)
    ensures
        r@ == v@,
{
    let r = string_of_range(v, 0, v.len());
    assert(v@.subrange(0, v@.len() as int) =~= v@);
    r
}

/// Whether two character sequences are equal.
pub fn eq_chars(a: &[char], b: &[char]) -> (r: bool)
    ensures
        r == (a@ == b@),
{
    if a.len() != b.len() {
        return false;
    }
    let mut i: usize = 0;
    while i < a.len()
        invariant
            a@.len() == b@.len(),
            i <= a@.len(),
            forall|k: int| 0 <= k < i ==> a@[k] == b@[k],
        decreases a@.len() - i,
    {
        if a[i] != b[i] {
            return false;
        }
        i += 1;
    }
    assert(a@ =~= b@);
    true
}

/// Whether two strings hold the same text.
pub fn same_text(a: &str, b: &str) -> (r: bool)
    ensures
        r == (a@ == b@),
{
    let x = chars_of(a);
    let y = chars_of(b);
    eq_chars(x.as_slice(), y.as_slice())
}

/// `s` ends with `t`.
pub open spec fn ends_with(s: Seq<char>, t: Seq<char>) -> bool {
    s.len() >= t.len() && s.subrange(s.len() - t.len(), s.len() as int) == t
}

/// Whether `s` ends with `t`.
pub fn ends_with_chars(s: &Vec<char>, t: &[char]) -> (r: bool)
    ensures
        r == ends_with(s@, t@),
{
    if s.len() < t.len() {
        return false;
    }
    let off = s.len() - t.len();
    let mut i: usize = 0;
    while i < t.len()
        invariant
            off + t@.len() == s@.len(),
            s@.len() == s.len(),
            i <= t@.len(),
            forall|k: int| 0 <= k < i ==> s@[off + k] == t@[k],
        decreases t@.len() - i,
    {
        if s[off + i] != t[i] {
            assert(s@.subrange(s@.len() - t@.len(), s@.len() as int)[i as int] != t@[i as int]);
            return false;
        }
        i += 1;
    }
    assert(s@.subrange(s@.len() - t@.len(), s@.len() as int) =~= t@);
    true
}

/// Whether `s` ends with the character `c`.
pub fn ends_with_char(s: &Vec<char>, c: char) -> (r: bool)
    ensures
        r == ends_with(s@, seq![c]),
{
    if s.len() == 0 {
        false
    } else {
        let n = s.len();
        let r = s[n - 1] == c;
        let ghost sub = s@.subrange(n - 1, n as int);
        if r {
            assert(sub =~= seq![c]);
        } else {
            assert(sub[0] != seq![c][0]);
        }
        r
    }
}

/// Every occurrence of `c` in `s` replaced by `r`.
pub open spec fn replace_char(s: Seq<char>, c: char, r: Seq<char>) -> Seq<char>
    decreases s.len(),
{
    if s.len() == 0 {
        seq![]
    } else {
        replace_char(s.drop_last(), c, r) + (if s.last() == c {
            r
        } else {
            seq![s.last()]
        })
    }
}

/// Replaces every occurrence of `c` in `s` by `r`.
pub fn replace_char_exec(s: &str, c: char, r: &str) -> (out: String)
    ensures
        out@ == replace_char(s@, c, r@),
{
    let v = chars_of(s);
    let mut out = String::new();
    let mut i: usize = 0;
    while i < v.len()
        invariant
            i <= v@.len(),
            out@ == replace_char(v@.take(i as int), c, r@),
        decreases v@.len() - i,
    {
        assert(v@.take(i + 1).drop_last() =~= v@.take(i as int));
        if v[i] == c {
            out.append(r);
        } else {
            push_char(&mut out, v[i]);
        }
        i += 1;
    }
    assert(v@.take(v@.len() as int) =~= v@);
    out
}

/// The index of the last occurrence of `c` in `s`.
pub open spec fn last_index_of(s: Seq<char>, c: char) -> Option<int>
    decreases s.len(),
{
    if s.len() == 0 {
        None
    } else if s.last() == c {
        Some(s.len() - 1)
    } else {
        last_index_of(s.drop_last(), c)
    }
}

/// The index of the first occurrence of `c` in `s`.
pub open spec fn first_index_of(s: Seq<char>, c: char) -> Option<int>
    decreases s.len(),
{
    if s.len() == 0 {
        None
    } else {
        match first_index_of(s.drop_last(), c) {
            Some(i) => Some(i),
            None => if s.last() == c {
                Some(s.len() - 1)
            } else {
                None
            },
        }
    }
}

pub proof fn lemma_last_index_of(s: Seq<char>, c: char)
    ensures
        last_index_of(s, c) matches Some(i) ==> 0 <= i < s.len() && s[i] == c && forall|k: int|
            i < k < s.len() ==> s[k] != c,
        last_index_of(s, c) is None ==> forall|k: int| 0 <= k < s.len() ==> s[k] != c,
    decreases s.len(),
{
    if s.len() > 0 {
        lemma_last_index_of(s.drop_last(), c);
        assert(forall|k: int| 0 <= k < s.len() - 1 ==> s.drop_last()[k] == s[k]);
    }
}

pub proof fn lemma_first_index_of(s: Seq<char>, c: char)
    ensures
        first_index_of(s, c) matches Some(i) ==> 0 <= i < s.len() && s[i] == c && forall|k: int|
            0 <= k < i ==> s[k] != c,
        first_index_of(s, c) is None ==> forall|k: int| 0 <= k < s.len() ==> s[k] != c,
    decreases s.len(),
{
    if s.len() > 0 {
        lemma_first_index_of(s.drop_last(), c);
        assert(forall|k: int| 0 <= k < s.len() - 1 ==> s.drop_last()[k] == s[k]);
    }
}

/// Finds the last occurrence of `c` in `v`.
pub fn rfind_char(v: &Vec<char>, c: char) -> (r: Option<usize>)
    ensures
        match r {
            Some(i) => last_index_of(v@, c) == Some(i as int),
            None => last_index_of(v@, c) is None,
        },
{
    let mut found: Option<usize> = None;
    let mut i: usize = 0;
    while i < v.len()
        invariant
            i <= v@.len(),
            match found {
                Some(k) => last_index_of(v@.take(i as int), c) == Some(k as int),
                None => last_index_of(v@.take(i as int), c) is None,
            },
        decreases v@.len() - i,
    {
        assert(v@.take(i + 1).drop_last() =~= v@.take(i as int));
        if v[i] == c {
            found = Some(i);
        }
        i += 1;
    }
    assert(v@.take(v@.len() as int) =~= v@);
    found
}

/// Finds the first occurrence of `c` in `v`.
pub fn find_char(v: &Vec<char>, c: char) -> (r: Option<usize>)
    ensures
        match r {
            Some(i) => first_index_of(v@, c) == Some(i as int),
            None => first_index_of(v@, c) is None,
        },
{
    let mut i: usize = 0;
    while i < v.len()
        invariant
            i <= v@.len(),
            first_index_of(v@.take(i as int), c) is None,
        decreases v@.len() - i,
    {
        assert(v@.take(i + 1).drop_last() =~= v@.take(i as int));
        if v[i] == c {
            proof {
                lemma_first_prefix(v@, c, i as int);
            }
            return Some(i);
        }
        i += 1;
    }
    assert(v@.take(v@.len() as int) =~= v@);
    None
}

/// A first occurrence found in a prefix is the first occurrence in the whole.
proof fn lemma_first_prefix(s: Seq<char>, c: char, i: int)
    requires
        0 <= i < s.len(),
        s[i] == c,
        first_index_of(s.take(i), c) is None,
    ensures
        first_index_of(s, c) == Some(i),
{
    lemma_first_index_of(s.take(i), c);
    lemma_first_index_of(s, c);
    match first_index_of(s, c) {
        Some(k) => {
            if k < i {
                assert(s.take(i)[k] == c);
            }
        },
        None => {},
    }
}

} // verus!

//! Matching file paths against the glob patterns of a project. In a glob, the
//! first `*` captures the stem: everything between the text before it and the
//! text after it, on one line.
use vstd::prelude::*;

use crate::config::{ConfigView, ProjectionConfig, Projections};
use crate::paths::{path_relative_to, strip_path_prefix};
use crate::placeholders::Placeholders;
use crate::transform::{expanded, law_expand_stem, placeholder_value};
use crate::strings::{
    chars_of, find_char, first_index_of, lemma_first_index_of, replace_char, replace_char_exec,
    string_of_range,
};

verus! {

/// The stem that a path has under a glob, if the path matches it.
///
/// Without `*`, the path must be the glob itself and the stem is empty. With
/// one, the path must start with the text before the first `*`, end with the
/// text after it, and hold no line feed in between (the stem).
pub open spec fn glob_stem(glob: Seq<char>, path: Seq<char>) -> Option<Seq<char>> {
    match first_index_of(glob, '*') {
        None => if path == glob {
            Some(seq![])
        } else {
            None
        },
        Some(i) => {
            let prefix = glob.take(i);
            let suffix = glob.skip(i + 1);
            let end = path.len() - suffix.len();
            if prefix.len() + suffix.len() <= path.len() && path.take(prefix.len() as int) == prefix
                && path.skip(end) == suffix && !path.subrange(prefix.len() as int, end).contains(
                '\n',
            ) {
                Some(path.subrange(prefix.len() as int, end))
            } else {
                None
            }
        },
    }
}

/// A path with `\` separators written as `/`.
pub open spec fn normalized_path(p: Seq<char>) -> Seq<char> {
    replace_char(p, '\\', seq!['/'])
}

/// A match of a file against one glob pattern, with its texts as character sequences.
pub struct MatchView {
    pub glob: Seq<char>,
    pub config: ConfigView,
    pub placeholders: Map<Seq<char>, Seq<char>>,
}

/// The match of a file whose stem is `stem` against the glob `glob`.
pub open spec fn match_of(glob: Seq<char>, config: ConfigView, stem: Seq<char>) -> MatchView {
    MatchView {
        glob,
        config,
        placeholders: Map::<Seq<char>, Seq<char>>::empty().insert(seq![], stem),
    }
}

/// The matches of a (normalized) relative path against the entries, in the
/// order of the entries.
pub open spec fn matches_of(entries: Seq<(Seq<char>, ConfigView)>, path: Seq<char>) -> Seq<
    MatchView,
>
    decreases entries.len(),
{
    if entries.len() == 0 {
        seq![]
    } else {
        let rest = matches_of(entries.drop_last(), path);
        let e = entries.last();
        match glob_stem(e.0, path) {
            Some(stem) => rest.push(match_of(e.0, e.1, stem)),
            None => rest,
        }
    }
}

/// The matches of an absolute path, taken relative to the project root.
pub open spec fn absolute_matches(
    entries: Seq<(Seq<char>, ConfigView)>,
    file_path: Seq<char>,
    project_root: Seq<char>,
) -> Seq<MatchView> {
    match path_relative_to(file_path, project_root) {
        Some(rel) => matches_of(entries, normalized_path(rel)),
        None => seq![],
    }
}

/// Result of matching a file against projections
pub struct MatchResult {
    /// The glob pattern that matched
    pub glob: String,
    /// The configuration for this pattern
    pub config: ProjectionConfig,
    /// Extracted placeholders (the empty name holds the stem)
    pub placeholders: Placeholders,
}

impl View for MatchResult {
    type V = MatchView;

    open spec fn view(&self) -> MatchView {
        MatchView { glob: self.glob@, config: self.config@, placeholders: self.placeholders@ }
    }
}

pub open spec fn match_views(ms: Seq<MatchResult>) -> Seq<MatchView> {
    ms.map_values(|m: MatchResult| m@)
}

/// Handles matching files against projection patterns
pub struct Matcher {
    projections: Projections,
}

/// Whether the characters `v[from..]` begin with `w`.
fn has_at(v: &Vec<char>, from: usize, w: &Vec<char>) -> (r: bool)
    ensures
        r == (from + w@.len() <= v@.len() && v@.subrange(from as int, from + w@.len()) == w@),
{
    if from > v.len() || w.len() > v.len() - from {
        return false;
    }
    let mut k: usize = 0;
    while k < w.len()
        invariant
            from + w@.len() <= v@.len(),
            v@.len() == v.len(),
            k <= w@.len(),
            forall|m: int| 0 <= m < k ==> v@[from + m] == w@[m],
        decreases w@.len() - k,
    {
        if v[from + k] != w[k] {
            assert(v@.subrange(from as int, from + w@.len())[k as int] != w@[k as int]);
            return false;
        }
        k += 1;
    }
    assert(v@.subrange(from as int, from + w@.len()) =~= w@);
    true
}

/// Whether `v[start..end]` holds the character `c`.
fn has_char_in(v: &Vec<char>, start: usize, end: usize, c: char) -> (r: bool)
    requires
        start <= end <= v.len(),
    ensures
        r == v@.subrange(start as int, end as int).contains(c),
{
    let mut k = start;
    while k < end
        invariant
            start <= k <= end <= v@.len(),
            forall|m: int| start <= m < k ==> v@[m] != c,
        decreases end - k,
    {
        if v[k] == c {
            assert(v@.subrange(start as int, end as int)[k - start] == c);
            return true;
        }
        k += 1;
    }
    assert forall|m: int| 0 <= m < end - start implies v@.subrange(start as int, end as int)[m]
        != c by {
        assert(v@.subrange(start as int, end as int)[m] == v@[start + m]);
    }
    false
}

impl View for Matcher {
    type V = Seq<(Seq<char>, ConfigView)>;

    closed spec fn view(&self) -> Seq<(Seq<char>, ConfigView)> {
        self.projections@
    }
}

impl Matcher {
    pub fn new(projections: Projections) -> (r: Self)
        ensures
            r@ == projections@,
    {
        Matcher { projections }
    }

    /// The stem of a path under a glob, if the path matches the glob: see `glob_stem`.
    pub fn glob_stem(glob: &str, path: &str) -> (r: Option<String>)
        ensures
            match r {
                Some(s) => glob_stem(glob@, path@) == Some(s@),
                None => glob_stem(glob@, path@) is None,
            },
    {
        let g = chars_of(glob);
        let p = chars_of(path);
        proof {
            lemma_first_index_of(g@, '*');
        }
        match find_char(&g, '*') {
            None => {
                if p.len() == g.len() && has_at(&p, 0, &g) {
                    assert(p@ =~= g@);
                    Some(String::new())
                } else {
                    proof {
                        if p@ == g@ {
                            assert(p@.subrange(0, g@.len() as int) =~= g@);
                        }
                    }
                    None
                }
            },
            Some(i) => {
                let prefix_len = i;
                let suffix_len = g.len() - i - 1;
                if prefix_len + suffix_len > p.len() {
                    return None;
                }
                let end = p.len() - suffix_len;
                let ghost prefix = g@.take(i as int);
                let ghost suffix = g@.skip(i + 1);
                let mut ok = true;
                let mut k: usize = 0;
                while k < prefix_len
                    invariant
                        prefix_len == i,
                        i < g@.len(),
                        prefix_len <= end <= p@.len(),
                        ok ==> forall|m: int| 0 <= m < k ==> p@[m] == g@[m],
                        !ok ==> p@.take(i as int) != prefix,
                        prefix == g@.take(i as int),
                        k <= prefix_len,
                    decreases prefix_len - k,
                {
                    if ok && p[k] != g[k] {
                        assert(p@.take(i as int)[k as int] != prefix[k as int]);
                        ok = false;
                    }
                    k += 1;
                }
                if ok {
                    assert(p@.take(i as int) =~= prefix);
                }
                let mut ok2 = true;
                let mut k2: usize = 0;
                while k2 < suffix_len
                    invariant
                        suffix_len == g@.len() - i - 1,
                        end + suffix_len == p@.len(),
                        p@.len() == p.len(),
                        g@.len() == g.len(),
                        ok2 ==> forall|m: int| 0 <= m < k2 ==> p@.skip(end as int)[m] == #[trigger] suffix[m],
                        !ok2 ==> p@.skip(end as int) != suffix,
                        suffix == g@.skip(i + 1),
                        k2 <= suffix_len,
                    decreases suffix_len - k2,
                {
                    assert(p@.skip(end as int)[k2 as int] == p@[end + k2]);
                    assert(suffix[k2 as int] == g@[i + 1 + k2]);
                    if ok2 && p[end + k2] != g[i + 1 + k2] {
                        assert(p@.skip(end as int)[k2 as int] != suffix[k2 as int]);
                        ok2 = false;
                    }
                    k2 += 1;
                }
                if ok2 {
                    assert(p@.skip(end as int) =~= suffix);
                }
                if ok && ok2 && !has_char_in(&p, prefix_len, end, '\n') {
                    Some(string_of_range(&p, prefix_len, end))
                } else {
                    None
                }
            },
        }
    }

    /// Match a file path against all projections and return matching results
    ///
    /// The file path should be relative to the project root.
    pub fn match_file(&self, relative_path: &str) -> (r: Vec<MatchResult>)
        ensures
            match_views(r@) == matches_of(self@, normalized_path(relative_path@)),
    {
        // Normalize path separators to forward slashes
        let normalized = replace_char_exec(relative_path, '\\', "/");
        proof {
            reveal_strlit("/");
            assert("/"@ =~= seq!['/']);
        }
        let ghost path = normalized@;
        let mut matches: Vec<MatchResult> = Vec::new();
        let mut i: usize = 0;
        let n = self.projections.len();
        assert(self@.take(0) =~= Seq::<(Seq<char>, ConfigView)>::empty());
        while i < n
            invariant
                n == self@.len(),
                i <= n,
                path == normalized@,
                path == normalized_path(relative_path@),
                match_views(matches@) == matches_of(self@.take(i as int), path),
            decreases n - i,
        {
            assert(self@.take(i + 1).drop_last() =~= self@.take(i as int));
            let glob = self.projections.glob_at(i);
            let config = self.projections.config_at(i);
            match Matcher::glob_stem(glob.as_str(), normalized.as_str()) {
                Some(stem) => {
                    let mut placeholders = Placeholders::new();
                    placeholders.insert(String::new(), stem);
                    let ghost before = match_views(matches@);
                    matches.push(
                        MatchResult { glob: glob.clone(), config: config.copy(), placeholders },
                    );
                    assert(match_views(matches@) =~= before.push(
                        match_of(self@[i as int].0, self@[i as int].1, stem@),
                    ));
                },
                None => {},
            }
            i += 1;
        }
        assert(self@.take(n as int) =~= self@);
        matches
    }

    /// Match an absolute file path using the project root
    pub fn match_absolute_path(&self, file_path: &str, project_root: &str) -> (r: Vec<
        MatchResult,
    >)
        ensures
            match_views(r@) == absolute_matches(self@, file_path@, project_root@),
    {
        match strip_path_prefix(file_path, project_root) {
            Some(relative) => {
                let relative_str = replace_char_exec(relative.as_str(), '\\', "/");
                proof {
                    reveal_strlit("/");
                    assert("/"@ =~= seq!['/']);
                    lemma_normalized_idempotent(relative@);
                }
                self.match_file(relative_str.as_str())
            },
            None => Vec::new(),
        }
    }
}

proof fn lemma_replace_concat(a: Seq<char>, b: Seq<char>, c: char, r: Seq<char>)
    ensures
        replace_char(a + b, c, r) == replace_char(a, c, r) + replace_char(b, c, r),
    decreases b.len(),
{
    if b.len() == 0 {
        assert(a + b =~= a);
        assert(replace_char(a, c, r) + replace_char(b, c, r) =~= replace_char(a, c, r));
    } else {
        assert((a + b).drop_last() =~= a + b.drop_last());
        lemma_replace_concat(a, b.drop_last(), c, r);
        assert(replace_char(a, c, r) + replace_char(b, c, r) =~= replace_char(a, c, r)
            + replace_char(b.drop_last(), c, r) + (if b.last() == c {
            r
        } else {
            seq![b.last()]
        }));
    }
}

/// Normalizing twice is normalizing once.
pub proof fn lemma_normalized_idempotent(p: Seq<char>)
    ensures
        normalized_path(normalized_path(p)) == normalized_path(p),
    decreases p.len(),
{
    if p.len() > 0 {
        lemma_normalized_idempotent(p.drop_last());
        let last_part = if p.last() == '\\' {
            seq!['/']
        } else {
            seq![p.last()]
        };
        lemma_replace_concat(normalized_path(p.drop_last()), last_part, '\\', seq!['/']);
        assert(replace_char(last_part, '\\', seq!['/']) =~= last_part) by {
            assert(last_part.drop_last() =~= Seq::<char>::empty());
            assert(replace_char(last_part.drop_last(), '\\', seq!['/']) =~= Seq::<char>::empty());
            assert(last_part.last() != '\\');
            assert(last_part =~= seq![last_part.last()]);
        }
    }
}


/// A glob recovers the stem of a path made of the text before its first `*`,
/// a stem on one line, and the text after that `*`.
pub proof fn law_glob_recovers_stem(p: Seq<char>, s: Seq<char>, stem: Seq<char>)
    requires
        !p.contains('*'),
        !stem.contains('\n'),
    ensures
        glob_stem(p + seq!['*'] + s, p + stem + s) == Some(stem),
{
    let g = p + seq!['*'] + s;
    let path = p + stem + s;
    lemma_first_index_of(g, '*');
    assert(g[p.len() as int] == '*');
    let i = first_index_of(g, '*').unwrap();
    assert(i == p.len()) by {
        if i < p.len() {
            assert(g[i] == p[i]);
            assert(p.contains('*'));
        }
    }
    assert(g.take(i) =~= p);
    assert(g.skip(i + 1) =~= s);
    let end = path.len() - s.len();
    assert(path.take(p.len() as int) =~= p);
    assert(path.skip(end) =~= s);
    assert(path.subrange(p.len() as int, end) =~= stem);
}

/// A glob matches only paths made of the whole text before its first `*`, a
/// stem on one line, and the whole text after that `*`: the stem it gives
/// rebuilds the path (`app/models/*.rb` gives no stem for
/// `app/mailers/welcome.rb`).
pub proof fn law_glob_stem_rebuilds_path(p: Seq<char>, s: Seq<char>, path: Seq<char>)
    requires
        !p.contains('*'),
    ensures
        glob_stem(p + seq!['*'] + s, path) matches Some(stem) ==> path == p + stem + s
            && !stem.contains('\n'),
{
    let g = p + seq!['*'] + s;
    lemma_first_index_of(g, '*');
    assert(g[p.len() as int] == '*');
    let i = first_index_of(g, '*').unwrap();
    assert(i == p.len()) by {
        if i < p.len() {
            assert(g[i] == p[i]);
            assert(p.contains('*'));
        }
    }
    assert(g.take(i) =~= p);
    assert(g.skip(i + 1) =~= s);
    if let Some(stem) = glob_stem(g, path) {
        let end = path.len() - s.len();
        assert(path.take(p.len() as int) == p);
        assert(path.skip(end) == s);
        assert(stem == path.subrange(p.len() as int, end));
        assert(path =~= p + stem + s) by {
            assert forall|k: int| 0 <= k < path.len() implies path[k] == (p + stem + s)[k] by {
                if k < p.len() {
                    assert(path.take(p.len() as int)[k] == path[k]);
                } else if k < end {
                    assert(stem[k - p.len()] == path[k]);
                } else {
                    assert(path.skip(end)[k - end] == path[k]);
                }
            }
        }
    }
}

/// A glob without `*` matches only the path that is the glob itself, with an
/// empty stem.
pub proof fn law_plain_glob_matches_itself(g: Seq<char>, path: Seq<char>)
    requires
        !g.contains('*'),
    ensures
        glob_stem(g, path) matches Some(stem) ==> path == g && stem.len() == 0,
        glob_stem(g, g) == Some(Seq::<char>::empty()),
{
    lemma_first_index_of(g, '*');
    if let Some(i) = first_index_of(g, '*') {
        assert(g[i] == '*');
    }
}

/// Switching between a file and its alternate and back: where the glob
/// `P*S` has the alternate `Q{}R` and the glob `Q*R` has the alternate
/// `P{}S`, the file `P` + stem + `S` has the alternate `Q` + stem + `R`,
/// which matches with the same stem, and whose alternate is the file again.
pub proof fn law_alternate_round_trip(
    src_prefix: Seq<char>,
    src_suffix: Seq<char>,
    alt_prefix: Seq<char>,
    alt_suffix: Seq<char>,
    stem: Seq<char>,
)
    requires
        !src_prefix.contains('*'),
        !alt_prefix.contains('*'),
        !src_prefix.contains('{'),
        !src_suffix.contains('{'),
        !alt_prefix.contains('{'),
        !alt_suffix.contains('{'),
        !stem.contains('\n'),
    ensures
        glob_stem(src_prefix + seq!['*'] + src_suffix, src_prefix + stem + src_suffix) == Some(
            stem,
        ),
        expanded(
            alt_prefix + seq!['{', '}'] + alt_suffix,
            Map::<Seq<char>, Seq<char>>::empty().insert(seq![], stem),
        ) == alt_prefix + stem + alt_suffix,
        glob_stem(alt_prefix + seq!['*'] + alt_suffix, alt_prefix + stem + alt_suffix) == Some(
            stem,
        ),
        expanded(
            src_prefix + seq!['{', '}'] + src_suffix,
            Map::<Seq<char>, Seq<char>>::empty().insert(seq![], stem),
        ) == src_prefix + stem + src_suffix,
{
    let ph = Map::<Seq<char>, Seq<char>>::empty().insert(seq![], stem);
    law_glob_recovers_stem(src_prefix, src_suffix, stem);
    law_glob_recovers_stem(alt_prefix, alt_suffix, stem);
    law_expand_stem(alt_prefix, alt_suffix, ph);
    law_expand_stem(src_prefix, src_suffix, ph);
    assert(placeholder_value(seq![], ph) == stem);
}

/// Matching treats `\` in the path as `/`: a path and its normalized form
/// have the same matches.
pub proof fn law_match_ignores_backslashes(entries: Seq<(Seq<char>, ConfigView)>, path: Seq<char>)
    ensures
        matches_of(entries, normalized_path(normalized_path(path))) == matches_of(
            entries,
            normalized_path(path),
        ),
{
    lemma_normalized_idempotent(path);
}

} // verus!

//! Finding the files related to a file.
use vstd::prelude::*;

use crate::config::{opt_text, Projections};
use crate::matcher::{absolute_matches, match_views, MatchView, Matcher, MatchResult};
use crate::paths::{join_path, path_joined, paths_equal, same_path};
use crate::transform::{expand_placeholders, expanded};

verus! {

/// A related file as a path and the search pattern that comes with it.
pub type RelatedTarget = (Seq<char>, Option<Seq<char>>);

/// The `define` pattern of a match, expanded.
pub open spec fn search_pattern_of(m: MatchView) -> Option<Seq<char>> {
    match m.config.define {
        Some(d) => Some(expanded(d, m.placeholders)),
        None => None,
    }
}

/// The related patterns of a match, expanded and joined to the root.
pub open spec fn related_patterns_of(m: MatchView, root: Seq<char>) -> Seq<RelatedTarget> {
    match m.config.related {
        Some(ps) => ps.map_values(
            |p: Seq<char>| (path_joined(root, expanded(p, m.placeholders)), search_pattern_of(m)),
        ),
        None => seq![],
    }
}

/// The related files of one match: its related patterns, then its alternate.
pub open spec fn related_of_match(m: MatchView, root: Seq<char>) -> Seq<RelatedTarget> {
    let rel = related_patterns_of(m, root);
    match m.config.alternate {
        Some(a) => rel.push((path_joined(root, expanded(a, m.placeholders)), search_pattern_of(m))),
        None => rel,
    }
}

/// The related files of the matches, in order.
pub open spec fn related_targets(ms: Seq<MatchView>, root: Seq<char>) -> Seq<RelatedTarget>
    decreases ms.len(),
{
    if ms.len() == 0 {
        seq![]
    } else {
        related_targets(ms.drop_last(), root) + related_of_match(ms.last(), root)
    }
}

/// Whether a list of targets holds one whose path is the same path as `p`.
pub open spec fn contains_target_path(ts: Seq<RelatedTarget>, p: Seq<char>) -> bool {
    exists|i: int| 0 <= i < ts.len() && same_path(ts[i].0, p)
}

/// The targets in order, each left out where an earlier kept one has the same path.
pub open spec fn unique_targets(ts: Seq<RelatedTarget>) -> Seq<RelatedTarget>
    decreases ts.len(),
{
    if ts.len() == 0 {
        seq![]
    } else {
        let r = unique_targets(ts.drop_last());
        if contains_target_path(r, ts.last().0) {
            r
        } else {
            r.push(ts.last())
        }
    }
}

/// Leaving out repeated paths loses no path: each target is kept, or an
/// earlier kept one has the same path.
pub proof fn law_unique_targets_cover(ts: Seq<RelatedTarget>, k: int)
    requires
        0 <= k < ts.len(),
    ensures
        unique_targets(ts).contains(ts[k]) || contains_target_path(unique_targets(ts), ts[k].0),
    decreases ts.len(),
{
    let r = unique_targets(ts.drop_last());
    if k < ts.len() - 1 {
        law_unique_targets_cover(ts.drop_last(), k);
        assert(ts.drop_last()[k] == ts[k]);
        if r.contains(ts[k]) {
            let j = choose|j: int| 0 <= j < r.len() && r[j] == ts[k];
            if !contains_target_path(r, ts.last().0) {
                assert(unique_targets(ts)[j] == r[j]);
            }
        } else {
            let j = choose|j: int| 0 <= j < r.len() && same_path(r[j].0, ts[k].0);
            if !contains_target_path(r, ts.last().0) {
                assert(unique_targets(ts)[j] == r[j]);
            }
        }
    } else {
        if !contains_target_path(r, ts.last().0) {
            assert(unique_targets(ts)[r.len() as int] == ts[k]);
        }
    }
}

/// The related files of a match whose configuration has an alternate end with
/// that alternate, expanded and joined to the root, whether or not the
/// configuration lists related patterns.
pub proof fn law_alternate_is_related(m: MatchView, root: Seq<char>)
    requires
        m.config.alternate is Some,
    ensures
        related_of_match(m, root).len() > 0,
        related_of_match(m, root).last() == (
            path_joined(root, expanded(m.config.alternate.unwrap(), m.placeholders)),
            search_pattern_of(m),
        ),
        related_of_match(m, root).drop_last() == related_patterns_of(m, root),
{
}

/// Among the related files of a list of matches, every match with an
/// alternate has that alternate (expanded and joined to the root) or a file
/// with the same path: `src/*.ts` with the alternate `test/{}.test.ts` makes
/// `/proj/test/utils.test.ts` related to `/proj/src/utils.ts`.
pub proof fn law_related_files_include_alternates(ms: Seq<MatchView>, root: Seq<char>, k: int)
    requires
        0 <= k < ms.len(),
        ms[k].config.alternate is Some,
    ensures
        ({
            let t = (
                path_joined(root, expanded(ms[k].config.alternate.unwrap(), ms[k].placeholders)),
                search_pattern_of(ms[k]),
            );
            let kept = unique_targets(related_targets(ms, root));
            kept.contains(t) || contains_target_path(kept, t.0)
        }),
{
    let t = (
        path_joined(root, expanded(ms[k].config.alternate.unwrap(), ms[k].placeholders)),
        search_pattern_of(ms[k]),
    );
    lemma_related_targets_contain(ms, root, k);
    let ts = related_targets(ms, root);
    let j = choose|j: int| 0 <= j < ts.len() && ts[j] == t;
    law_unique_targets_cover(ts, j);
}

proof fn lemma_related_targets_contain(ms: Seq<MatchView>, root: Seq<char>, k: int)
    requires
        0 <= k < ms.len(),
        ms[k].config.alternate is Some,
    ensures
        related_targets(ms, root).contains(
            (
                path_joined(root, expanded(ms[k].config.alternate.unwrap(), ms[k].placeholders)),
                search_pattern_of(ms[k]),
            ),
        ),
    decreases ms.len(),
{
    let t = (
        path_joined(root, expanded(ms[k].config.alternate.unwrap(), ms[k].placeholders)),
        search_pattern_of(ms[k]),
    );
    let front = related_targets(ms.drop_last(), root);
    let back = related_of_match(ms.last(), root);
    assert(related_targets(ms, root) == front + back);
    if k < ms.len() - 1 {
        assert(ms.drop_last()[k] == ms[k]);
        lemma_related_targets_contain(ms.drop_last(), root, k);
        let j = choose|j: int| 0 <= j < front.len() && front[j] == t;
        assert((front + back)[j] == t);
    } else {
        law_alternate_is_related(ms.last(), root);
        assert((front + back)[front.len() + back.len() - 1] == t);
    }
}

/// No two related files kept have the same path.
pub proof fn law_unique_targets_distinct(ts: Seq<RelatedTarget>)
    ensures
        forall|i: int, j: int|
            0 <= i < j < unique_targets(ts).len() ==> !same_path(
                #[trigger] unique_targets(ts)[i].0,
                #[trigger] unique_targets(ts)[j].0,
            ),
    decreases ts.len(),
{
    if ts.len() > 0 {
        law_unique_targets_distinct(ts.drop_last());
        let r = unique_targets(ts.drop_last());
        if !contains_target_path(r, ts.last().0) {
            assert forall|i: int| 0 <= i < r.len() implies !same_path(r[i].0, ts.last().0) by {}
        }
    }
}

/// Information about a related file
pub struct RelatedFile {
    /// Full path to the related file
    pub path: String,
    /// Optional search pattern for auto-scroll (from `define`)
    pub search_pattern: Option<String>,
    /// Whether the file exists
    pub exists: bool,
}

/// Result of finding related files
pub struct RelatedResult {
    /// List of related files with metadata
    pub files: Vec<RelatedFile>,
    /// The project root used
    pub project_root: String,
}

pub open spec fn target_of(f: RelatedFile) -> RelatedTarget {
    (f.path@, opt_text(f.search_pattern))
}

pub open spec fn targets_of(fs: Seq<RelatedFile>) -> Seq<RelatedTarget> {
    fs.map_values(|f: RelatedFile| target_of(f))
}

fn contains_file_path(fs: &Vec<RelatedFile>, p: &String) -> (r: bool)
    ensures
        r == contains_target_path(targets_of(fs@), p@),
{
    let mut i: usize = 0;
    while i < fs.len()
        invariant
            i <= fs@.len(),
            forall|k: int| 0 <= k < i ==> !same_path(#[trigger] targets_of(fs@)[k].0, p@),
        decreases fs@.len() - i,
    {
        assert(targets_of(fs@)[i as int].0 == fs@[i as int].path@);
        if paths_equal(fs[i].path.as_str(), p.as_str()) {
            return true;
        }
        i += 1;
    }
    false
}

/// Adds a related file unless one with the same path is there already.
fn add_target(
    files: &mut Vec<RelatedFile>,
    path: String,
    search_pattern: &Option<String>,
    Ghost(cands): Ghost<Seq<RelatedTarget>>,
)
    requires
        targets_of(old(files)@) == unique_targets(cands),
        forall|i: int| 0 <= i < old(files)@.len() ==> !(#[trigger] old(files)@[i]).exists,
    ensures
        targets_of(final(files)@) == unique_targets(
            cands.push((path@, opt_text(*search_pattern))),
        ),
        forall|i: int| 0 <= i < final(files)@.len() ==> !(#[trigger] final(files)@[i]).exists,
{
    let ghost t = (path@, opt_text(*search_pattern));
    assert(cands.push(t).drop_last() =~= cands);
    if !contains_file_path(files, &path) {
        let sp = match search_pattern {
            Some(s) => Some(s.clone()),
            None => None,
        };
        let ghost before = targets_of(files@);
        files.push(RelatedFile { exists: false, path, search_pattern: sp });
        assert(targets_of(files@) =~= before.push(t));
    }
}

/// Find related files for a given file path
///
/// For each match of the file (relative to the project root), its related
/// patterns and then its alternate pattern are expanded and joined to the
/// root; a path that is the same path as an earlier one is left out. Each
/// file carries the match's expanded `define` as its search pattern. Which of
/// them exist is recorded afterwards with `record_existing`.
pub fn find_related(file_path: &str, project_root: &str, projections: Projections) -> (r:
    RelatedResult)
    ensures
        targets_of(r.files@) == unique_targets(
            related_targets(absolute_matches(projections@, file_path@, project_root@), project_root@),
        ),
        forall|i: int| 0 <= i < r.files@.len() ==> !(#[trigger] r.files@[i]).exists,
        r.project_root@ == project_root@,
{
    let matcher = Matcher::new(projections);
    let matches = matcher.match_absolute_path(file_path, project_root);
    let ghost ms = match_views(matches@);
    let ghost root = project_root@;
    let mut files: Vec<RelatedFile> = Vec::new();
    let ghost mut cands: Seq<RelatedTarget> = seq![];
    let mut k: usize = 0;
    assert(ms.take(0) =~= Seq::<MatchView>::empty());
    while k < matches.len()
        invariant
            k <= matches@.len(),
            ms == match_views(matches@),
            root == project_root@,
            cands == related_targets(ms.take(k as int), root),
            targets_of(files@) == unique_targets(cands),
            forall|i: int| 0 <= i < files@.len() ==> !(#[trigger] files@[i]).exists,
        decreases matches@.len() - k,
    {
        assert(ms.take(k + 1).drop_last() =~= ms.take(k as int));
        let m: &MatchResult = &matches[k];
        assert(ms.take(k + 1).last() == m@);
        let ghost start = cands;
        let search_pattern = match &m.config.define {
            Some(d) => Some(expand_placeholders(d.as_str(), &m.placeholders)),
            None => None,
        };
        assert(opt_text(search_pattern) == search_pattern_of(m@));
        let ghost rel = related_patterns_of(m@, root);
        match &m.config.related {
            Some(patterns) => {
                let mut j: usize = 0;
                assert(rel.take(0) =~= Seq::<RelatedTarget>::empty());
                assert(start + rel.take(0) =~= start);
                while j < patterns.len()
                    invariant
                        j <= patterns@.len(),
                        m.config.related == Some(*patterns),
                        rel == related_patterns_of(m@, root),
                        rel.len() == patterns@.len(),
                        root == project_root@,
                        opt_text(search_pattern) == search_pattern_of(m@),
                        cands == start + rel.take(j as int),
                        targets_of(files@) == unique_targets(cands),
                        forall|i: int| 0 <= i < files@.len() ==> !(#[trigger] files@[i]).exists,
                    decreases patterns@.len() - j,
                {
                    let expanded_path = expand_placeholders(patterns[j].as_str(), &m.placeholders);
                    let full_path = join_path(project_root, expanded_path.as_str());
                    assert(rel[j as int] == (full_path@, opt_text(search_pattern)));
                    add_target(&mut files, full_path, &search_pattern, Ghost(cands));
                    proof {
                        assert(start + rel.take(j + 1) =~= (start + rel.take(j as int)).push(
                            rel[j as int],
                        ));
                        cands = start + rel.take(j + 1);
                    }
                    j += 1;
                }
                assert(rel.take(patterns@.len() as int) =~= rel);
            },
            None => {
                assert(start + rel =~= start);
            },
        }
        assert(cands == start + rel);
        match &m.config.alternate {
            Some(pattern) => {
                let expanded_path = expand_placeholders(pattern.as_str(), &m.placeholders);
                let full_path = join_path(project_root, expanded_path.as_str());
                add_target(&mut files, full_path, &search_pattern, Ghost(cands));
                proof {
                    cands = cands.push((full_path@, opt_text(search_pattern)));
                    assert(cands =~= start + related_of_match(m@, root));
                }
            },
            None => {
                assert(cands =~= start + related_of_match(m@, root));
            },
        }
        k += 1;
    }
    assert(ms.take(matches@.len() as int) =~= ms);
    RelatedResult { files, project_root: project_root.to_owned() }
}

impl RelatedResult {
    /// Records which of the files exist: `present[i]` tells whether
    /// `files[i]` does. Nothing else changes.
    pub fn record_existing(&mut self, present: &Vec<bool>)
        requires
            present@.len() == old(self).files@.len(),
        ensures
            final(self).files@.len() == old(self).files@.len(),
            forall|i: int|
                0 <= i < final(self).files@.len() ==> (#[trigger] final(self).files@[i]).exists
                    == present@[i] && final(self).files@[i].path == old(self).files@[i].path
                    && final(self).files@[i].search_pattern == old(self).files@[i].search_pattern,
            final(self).project_root == old(self).project_root,
    {
        let mut i: usize = 0;
        while i < self.files.len()
            invariant
                i <= self.files@.len(),
                present@.len() == self.files@.len(),
                self.files@.len() == old(self).files@.len(),
                self.project_root == old(self).project_root,
                forall|k: int|
                    0 <= k < self.files@.len() ==> (#[trigger] self.files@[k]).path == old(
                        self,
                    ).files@[k].path && self.files@[k].search_pattern == old(
                        self,
                    ).files@[k].search_pattern,
                forall|k: int| 0 <= k < i ==> (#[trigger] self.files@[k]).exists == present@[k],
            decreases self.files@.len() - i,
        {
            self.files[i].exists = present[i];
            i += 1;
        }
    }
}

} // verus!

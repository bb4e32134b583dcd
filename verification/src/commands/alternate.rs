//! Finding the alternate files of a file.
use vstd::prelude::*;

use crate::config::Projections;
use crate::matcher::{absolute_matches, match_views, MatchView, Matcher, MatchResult};
use crate::paths::{join_path, path_joined, paths_equal, same_path};
use crate::transform::{expand_placeholders, expanded, string_views};

verus! {

/// Whether a list of paths holds one that is the same path as `p`.
pub open spec fn contains_path(ps: Seq<Seq<char>>, p: Seq<char>) -> bool {
    exists|i: int| 0 <= i < ps.len() && same_path(ps[i], p)
}

/// The paths in order, each left out where an earlier kept one is the same path.
pub open spec fn without_repeats(ps: Seq<Seq<char>>) -> Seq<Seq<char>>
    decreases ps.len(),
{
    if ps.len() == 0 {
        seq![]
    } else {
        let r = without_repeats(ps.drop_last());
        if contains_path(r, ps.last()) {
            r
        } else {
            r.push(ps.last())
        }
    }
}

/// No two alternate paths kept are the same path.
pub proof fn law_without_repeats_distinct(ps: Seq<Seq<char>>)
    ensures
        forall|i: int, j: int|
            0 <= i < j < without_repeats(ps).len() ==> !same_path(
                #[trigger] without_repeats(ps)[i],
                #[trigger] without_repeats(ps)[j],
            ),
    decreases ps.len(),
{
    if ps.len() > 0 {
        law_without_repeats_distinct(ps.drop_last());
        let r = without_repeats(ps.drop_last());
        if !contains_path(r, ps.last()) {
            assert forall|i: int| 0 <= i < r.len() implies !same_path(r[i], ps.last()) by {}
        }
    }
}

/// The first candidate is always kept, so some alternate is kept exactly when
/// there is a candidate at all.
pub proof fn law_without_repeats_keeps_first(ps: Seq<Seq<char>>)
    ensures
        without_repeats(ps).len() == 0 <==> ps.len() == 0,
        ps.len() > 0 ==> without_repeats(ps)[0] == ps[0],
    decreases ps.len(),
{
    if ps.len() > 0 {
        law_without_repeats_keeps_first(ps.drop_last());
        let r = without_repeats(ps.drop_last());
        if r.len() == 0 {
            assert(!contains_path(r, ps.last()));
            assert(ps.drop_last().len() == 0);
            assert(ps[0] == ps.last());
        } else {
            assert(ps.drop_last()[0] == ps[0]);
        }
    }
}

/// Leaving out repeated paths loses no candidate: each is kept, or an earlier
/// kept path is the same path.
pub proof fn law_without_repeats_cover(ps: Seq<Seq<char>>, k: int)
    requires
        0 <= k < ps.len(),
    ensures
        without_repeats(ps).contains(ps[k]) || contains_path(without_repeats(ps), ps[k]),
    decreases ps.len(),
{
    let r = without_repeats(ps.drop_last());
    if k < ps.len() - 1 {
        law_without_repeats_cover(ps.drop_last(), k);
        assert(ps.drop_last()[k] == ps[k]);
        if r.contains(ps[k]) {
            let j = choose|j: int| 0 <= j < r.len() && r[j] == ps[k];
            if !contains_path(r, ps.last()) {
                assert(without_repeats(ps)[j] == r[j]);
            }
        } else {
            let j = choose|j: int| 0 <= j < r.len() && same_path(r[j], ps[k]);
            if !contains_path(r, ps.last()) {
                assert(without_repeats(ps)[j] == r[j]);
            }
        }
    } else {
        if !contains_path(r, ps.last()) {
            assert(without_repeats(ps)[r.len() as int] == ps[k]);
        }
    }
}

/// Every alternate path kept is one of the candidates.
pub proof fn law_without_repeats_subset(ps: Seq<Seq<char>>)
    ensures
        forall|i: int| 0 <= i < without_repeats(ps).len() ==> ps.contains(#[trigger] without_repeats(ps)[i]),
    decreases ps.len(),
{
    if ps.len() > 0 {
        law_without_repeats_subset(ps.drop_last());
        let r = without_repeats(ps.drop_last());
        assert forall|i: int| 0 <= i < without_repeats(ps).len() implies ps.contains(
            #[trigger] without_repeats(ps)[i],
        ) by {
            if i < r.len() {
                let x = r[i];
                assert(ps.drop_last().contains(x));
                let k = choose|k: int| 0 <= k < ps.drop_last().len() && ps.drop_last()[k] == x;
                assert(ps[k] == x);
            } else {
                assert(ps[ps.len() - 1] == ps.last());
            }
        }
    }
}

/// The alternate of each match that has one, expanded and joined to the
/// project root, in the order of the matches.
pub open spec fn alternate_targets(ms: Seq<MatchView>, root: Seq<char>) -> Seq<Seq<char>>
    decreases ms.len(),
{
    if ms.len() == 0 {
        seq![]
    } else {
        let r = alternate_targets(ms.drop_last(), root);
        let m = ms.last();
        match m.config.alternate {
            Some(p) => r.push(path_joined(root, expanded(p, m.placeholders))),
            None => r,
        }
    }
}

/// The paths whose flag is set, in order.
pub open spec fn kept_where(ps: Seq<Seq<char>>, flags: Seq<bool>) -> Seq<Seq<char>>
    decreases ps.len(),
{
    if ps.len() == 0 {
        seq![]
    } else {
        let r = kept_where(ps.drop_last(), flags.drop_last());
        if flags[ps.len() - 1] {
            r.push(ps.last())
        } else {
            r
        }
    }
}

/// Result of finding alternate files
pub struct AlternateResult {
    /// List of potential alternate file paths (absolute)
    pub paths: Vec<String>,
    /// Which paths actually exist on the filesystem
    pub existing: Vec<String>,
    /// The project root used
    pub project_root: String,
}

/// Whether the list holds a path that is the same path as `p`.
pub fn contains_path_exec(ps: &Vec<String>, p: &String) -> (r: bool)
    ensures
        r == contains_path(string_views(ps@), p@),
{
    let mut i: usize = 0;
    while i < ps.len()
        invariant
            i <= ps@.len(),
            forall|k: int| 0 <= k < i ==> !same_path(#[trigger] string_views(ps@)[k], p@),
        decreases ps@.len() - i,
    {
        assert(string_views(ps@)[i as int] == ps@[i as int]@);
        if paths_equal(ps[i].as_str(), p.as_str()) {
            return true;
        }
        i += 1;
    }
    false
}

/// Find alternate files for a given file path
///
/// The file is matched against the projections relative to the project root;
/// the alternate pattern of each match is expanded and joined to the root,
/// and a path that is the same path as an earlier one is left out. Which of
/// them exist is recorded afterwards with `record_existing`.
pub fn find_alternate(file_path: &str, project_root: &str, projections: Projections) -> (r:
    AlternateResult)
    ensures
        string_views(r.paths@) == without_repeats(
            alternate_targets(absolute_matches(projections@, file_path@, project_root@), project_root@),
        ),
        r.existing@.len() == 0,
        r.project_root@ == project_root@,
{
    let matcher = Matcher::new(projections);
    let matches = matcher.match_absolute_path(file_path, project_root);
    let ghost ms = match_views(matches@);
    let mut all_paths: Vec<String> = Vec::new();
    let mut k: usize = 0;
    assert(ms.take(0) =~= Seq::<MatchView>::empty());
    while k < matches.len()
        invariant
            k <= matches@.len(),
            ms == match_views(matches@),
            string_views(all_paths@) == without_repeats(
                alternate_targets(ms.take(k as int), project_root@),
            ),
        decreases matches@.len() - k,
    {
        assert(ms.take(k + 1).drop_last() =~= ms.take(k as int));
        let m: &MatchResult = &matches[k];
        assert(ms.take(k + 1).last() == m@);
        let ghost prev = alternate_targets(ms.take(k as int), project_root@);
        match &m.config.alternate {
            Some(pattern) => {
                let expanded_path = expand_placeholders(pattern.as_str(), &m.placeholders);
                let full_path = join_path(project_root, expanded_path.as_str());
                assert(alternate_targets(ms.take(k + 1), project_root@) == prev.push(full_path@));
                assert(prev.push(full_path@).drop_last() =~= prev);
                if !contains_path_exec(&all_paths, &full_path) {
                    let ghost before = string_views(all_paths@);
                    all_paths.push(full_path);
                    assert(string_views(all_paths@) =~= before.push(full_path@));
                }
            },
            None => {
                assert(alternate_targets(ms.take(k + 1), project_root@) == prev);
            },
        }
        k += 1;
    }
    assert(ms.take(matches@.len() as int) =~= ms);
    AlternateResult { paths: all_paths, existing: Vec::new(), project_root: project_root.to_owned() }
}

impl AlternateResult {
    /// Records which of the paths exist: `present[i]` tells whether `paths[i]`
    /// does. `existing` becomes those paths, in order.
    pub fn record_existing(&mut self, present: &Vec<bool>)
        requires
            present@.len() == old(self).paths@.len(),
        ensures
            string_views(final(self).existing@) == kept_where(
                string_views(old(self).paths@),
                present@,
            ),
            final(self).paths@ == old(self).paths@,
            final(self).project_root@ == old(self).project_root@,
    {
        let ghost ps = string_views(self.paths@);
        let mut existing: Vec<String> = Vec::new();
        let mut i: usize = 0;
        assert(ps.take(0) =~= Seq::<Seq<char>>::empty());
        while i < self.paths.len()
            invariant
                i <= self.paths@.len(),
                present@.len() == self.paths@.len(),
                ps == string_views(self.paths@),
                string_views(existing@) == kept_where(ps.take(i as int), present@.take(i as int)),
            decreases self.paths@.len() - i,
        {
            assert(ps.take(i + 1).drop_last() =~= ps.take(i as int));
            assert(present@.take(i + 1).drop_last() =~= present@.take(i as int));
            if present[i] {
                let ghost before = string_views(existing@);
                existing.push(self.paths[i].clone());
                assert(string_views(existing@) =~= before.push(ps[i as int]));
            }
            i += 1;
        }
        assert(ps.take(self.paths@.len() as int) =~= ps);
        assert(present@.take(self.paths@.len() as int) =~= present@);
        self.existing = existing;
    }
}


/// What the `alternate` command does with a result (when not asked for JSON).
pub enum AlternateAction {
    /// Show (or open) the first alternate that exists
    Existing(String),
    /// Create the first alternate from its template, then show (or open) it
    Create(String),
    /// Show the first alternate, which does not exist
    Missing(String),
    /// Creation was asked for, but no alternate pattern applies
    NoPattern,
    /// No alternate applies
    NotFound,
}

/// Chooses what the `alternate` command does: the first existing alternate
/// wins; else, when asked to, the first alternate is created; else the first
/// alternate is shown though it does not exist.
pub fn choose_alternate(result: &AlternateResult, create_if_missing: bool) -> (r: AlternateAction)
    ensures
        result.existing@.len() > 0 ==> (r matches AlternateAction::Existing(p) && p@
            == result.existing@[0]@),
        result.existing@.len() == 0 && create_if_missing && result.paths@.len() > 0
            ==> (r matches AlternateAction::Create(p) && p@ == result.paths@[0]@),
        result.existing@.len() == 0 && create_if_missing && result.paths@.len() == 0
            ==> r matches AlternateAction::NoPattern,
        result.existing@.len() == 0 && !create_if_missing && result.paths@.len() > 0
            ==> (r matches AlternateAction::Missing(p) && p@ == result.paths@[0]@),
        result.existing@.len() == 0 && !create_if_missing && result.paths@.len() == 0
            ==> r matches AlternateAction::NotFound,
{
    if result.existing.len() > 0 {
        AlternateAction::Existing(result.existing[0].clone())
    } else if create_if_missing {
        if result.paths.len() > 0 {
            AlternateAction::Create(result.paths[0].clone())
        } else {
            AlternateAction::NoPattern
        }
    } else if result.paths.len() > 0 {
        AlternateAction::Missing(result.paths[0].clone())
    } else {
        AlternateAction::NotFound
    }
}

} // verus!

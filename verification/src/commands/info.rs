//! Detailed information about the projections that a file matches.
use vstd::prelude::*;

use crate::config::{copy_text, opt_text, opt_texts, Projections};
use crate::matcher::{absolute_matches, match_views, MatchView, Matcher, MatchResult};
use crate::paths::{join_path, path_joined};
use crate::placeholders::Placeholders;
use crate::transform::{expand_placeholders, expanded, string_views};

verus! {

/// A path that has been expanded from a pattern
pub struct ExpandedPath {
    /// The pattern as written in the configuration
    pub pattern: String,
    /// The expanded path (relative)
    pub expanded: String,
    /// Full absolute path
    pub full_path: String,
    /// Whether the file exists
    pub exists: bool,
}

/// An `ExpandedPath` with its texts as character sequences.
pub struct ExpandedPathView {
    pub pattern: Seq<char>,
    pub expanded: Seq<char>,
    pub full_path: Seq<char>,
    pub exists: bool,
}

impl View for ExpandedPath {
    type V = ExpandedPathView;

    open spec fn view(&self) -> ExpandedPathView {
        ExpandedPathView {
            pattern: self.pattern@,
            expanded: self.expanded@,
            full_path: self.full_path@,
            exists: self.exists,
        }
    }
}

/// A pattern expanded with the placeholders and joined to the root; its
/// existence not yet recorded.
pub open spec fn expanded_path_of(
    pattern: Seq<char>,
    ph: Map<Seq<char>, Seq<char>>,
    root: Seq<char>,
) -> ExpandedPathView {
    ExpandedPathView {
        pattern,
        expanded: expanded(pattern, ph),
        full_path: path_joined(root, expanded(pattern, ph)),
        exists: false,
    }
}

/// Detailed information about a file's projections
pub struct ProjectionInfo {
    /// The glob pattern that matched
    pub pattern: String,
    /// The captured stem value
    pub stem: String,
    /// The file type (if specified)
    pub file_type: Option<String>,
    /// Expanded alternate file path
    pub alternate: Option<ExpandedPath>,
    /// Expanded related file paths
    pub related: Vec<ExpandedPath>,
    /// Define pattern (search pattern for related files)
    pub define: Option<String>,
    /// Template (if specified)
    pub template: Option<Vec<String>>,
}

/// A `ProjectionInfo` with its texts as character sequences.
pub struct ProjectionInfoView {
    pub pattern: Seq<char>,
    pub stem: Seq<char>,
    pub file_type: Option<Seq<char>>,
    pub alternate: Option<ExpandedPathView>,
    pub related: Seq<ExpandedPathView>,
    pub define: Option<Seq<char>>,
    pub template: Option<Seq<Seq<char>>>,
}

pub open spec fn expanded_path_views(ps: Seq<ExpandedPath>) -> Seq<ExpandedPathView> {
    ps.map_values(|p: ExpandedPath| p@)
}

impl View for ProjectionInfo {
    type V = ProjectionInfoView;

    open spec fn view(&self) -> ProjectionInfoView {
        ProjectionInfoView {
            pattern: self.pattern@,
            stem: self.stem@,
            file_type: opt_text(self.file_type),
            alternate: match self.alternate {
                Some(a) => Some(a@),
                None => None,
            },
            related: expanded_path_views(self.related@),
            define: opt_text(self.define),
            template: opt_texts(self.template),
        }
    }
}

/// An expanded path with its existence recorded.
pub open spec fn with_exists(p: ExpandedPathView, exists: bool) -> ExpandedPathView {
    ExpandedPathView { exists, ..p }
}

impl ProjectionInfo {
    /// Records which of the expanded paths exist: `alternate_present` tells
    /// whether the alternate does (if there is one), and `related_present[i]`
    /// whether `related[i]` does. Nothing else changes.
    pub fn record_existing(&mut self, alternate_present: bool, related_present: &Vec<bool>)
        requires
            related_present@.len() == old(self).related@.len(),
        ensures
            final(self)@.alternate == match old(self)@.alternate {
                Some(a) => Some(with_exists(a, alternate_present)),
                None => None,
            },
            final(self)@.related.len() == old(self)@.related.len(),
            forall|i: int|
                0 <= i < final(self)@.related.len() ==> #[trigger] final(self)@.related[i]
                    == with_exists(old(self)@.related[i], related_present@[i]),
            final(self)@.pattern == old(self)@.pattern,
            final(self)@.stem == old(self)@.stem,
            final(self)@.file_type == old(self)@.file_type,
            final(self)@.define == old(self)@.define,
            final(self)@.template == old(self)@.template,
    {
        match &mut self.alternate {
            Some(a) => {
                a.exists = alternate_present;
            },
            None => {},
        }
        let mut i: usize = 0;
        while i < self.related.len()
            invariant
                i <= self.related@.len(),
                related_present@.len() == self.related@.len(),
                self.related@.len() == old(self).related@.len(),
                self@.alternate == match old(self)@.alternate {
                    Some(a) => Some(with_exists(a, alternate_present)),
                    None => None,
                },
                self@.pattern == old(self)@.pattern,
                self@.stem == old(self)@.stem,
                self@.file_type == old(self)@.file_type,
                self@.define == old(self)@.define,
                self@.template == old(self)@.template,
                forall|k: int|
                    0 <= k < i ==> #[trigger] self.related@[k]@ == with_exists(
                        old(self).related@[k]@,
                        related_present@[k],
                    ),
                forall|k: int|
                    i <= k < self.related@.len() ==> #[trigger] self.related@[k]
                        == old(self).related@[k],
            decreases self.related@.len() - i,
        {
            self.related[i].exists = related_present[i];
            i += 1;
        }
    }
}

/// Full result of getting projection info
pub struct InfoResult {
    /// The file path that was queried
    pub file: String,
    /// The project root
    pub project_root: String,
    /// All matching projections with details
    pub projections: Vec<ProjectionInfo>,
}

pub open spec fn info_views(ps: Seq<ProjectionInfo>) -> Seq<ProjectionInfoView> {
    ps.map_values(|p: ProjectionInfo| p@)
}

/// Each text expanded with the placeholders.
pub open spec fn expanded_all(ts: Seq<Seq<char>>, ph: Map<Seq<char>, Seq<char>>) -> Seq<Seq<char>> {
    ts.map_values(|t: Seq<char>| expanded(t, ph))
}

/// What is known of a match: its pattern, stem and type, and its alternate,
/// related files, `define` and template expanded with its placeholders.
pub open spec fn projection_info_of(m: MatchView, root: Seq<char>) -> ProjectionInfoView {
    ProjectionInfoView {
        pattern: m.glob,
        stem: if m.placeholders.contains_key(seq![]) {
            m.placeholders[seq![]]
        } else {
            seq![]
        },
        file_type: m.config.file_type,
        alternate: match m.config.alternate {
            Some(p) => Some(expanded_path_of(p, m.placeholders, root)),
            None => None,
        },
        related: match m.config.related {
            Some(ps) => ps.map_values(
                |p: Seq<char>| expanded_path_of(p, m.placeholders, root),
            ),
            None => seq![],
        },
        define: match m.config.define {
            Some(d) => Some(expanded(d, m.placeholders)),
            None => None,
        },
        template: match m.config.template {
            Some(ls) => Some(expanded_all(ls, m.placeholders)),
            None => None,
        },
    }
}

/// Each text of the list expanded with the placeholders.
pub fn expand_all(lines: &Vec<String>, placeholders: &Placeholders) -> (r: Vec<String>)
    ensures
        string_views(r@) == expanded_all(string_views(lines@), placeholders@),
{
    let ghost want = expanded_all(string_views(lines@), placeholders@);
    let mut r: Vec<String> = Vec::new();
    let mut i: usize = 0;
    while i < lines.len()
        invariant
            i <= lines@.len(),
            r@.len() == i,
            want == expanded_all(string_views(lines@), placeholders@),
            string_views(r@) == want.take(i as int),
        decreases lines@.len() - i,
    {
        let e = expand_placeholders(lines[i].as_str(), placeholders);
        let ghost before = r@;
        r.push(e);
        assert(string_views(r@) =~= want.take(i + 1)) by {
            assert(r@ == before.push(e));
            assert(forall|k: int| 0 <= k < i ==> string_views(before)[k] == want.take(i as int)[k]);
        }
        i += 1;
    }
    assert(want.take(lines@.len() as int) =~= want);
    r
}

fn expanded_path(pattern: &String, placeholders: &Placeholders, project_root: &str) -> (r:
    ExpandedPath)
    ensures
        r@ == expanded_path_of(pattern@, placeholders@, project_root@),
{
    let expanded_text = expand_placeholders(pattern.as_str(), placeholders);
    let full_path = join_path(project_root, expanded_text.as_str());
    ExpandedPath { pattern: pattern.clone(), expanded: expanded_text, full_path, exists: false }
}

fn expanded_paths(patterns: &Vec<String>, placeholders: &Placeholders, project_root: &str) -> (r:
    Vec<ExpandedPath>)
    ensures
        expanded_path_views(r@) == string_views(patterns@).map_values(
            |p: Seq<char>| expanded_path_of(p, placeholders@, project_root@),
        ),
{
    let ghost want = string_views(patterns@).map_values(
        |p: Seq<char>| expanded_path_of(p, placeholders@, project_root@),
    );
    let mut r: Vec<ExpandedPath> = Vec::new();
    let mut i: usize = 0;
    while i < patterns.len()
        invariant
            i <= patterns@.len(),
            r@.len() == i,
            want == string_views(patterns@).map_values(
                |p: Seq<char>| expanded_path_of(p, placeholders@, project_root@),
            ),
            expanded_path_views(r@) == want.take(i as int),
        decreases patterns@.len() - i,
    {
        let e = expanded_path(&patterns[i], placeholders, project_root);
        let ghost before = r@;
        r.push(e);
        assert(expanded_path_views(r@) =~= want.take(i + 1)) by {
            assert(r@ == before.push(e));
            assert(forall|k: int|
                0 <= k < i ==> expanded_path_views(before)[k] == want.take(i as int)[k]);
        }
        i += 1;
    }
    assert(want.take(patterns@.len() as int) =~= want);
    r
}

fn build_projection_info(m: &MatchResult, project_root: &str) -> (r: ProjectionInfo)
    ensures
        r@ == projection_info_of(m@, project_root@),
{
    let empty = String::new();
    let stem = match m.placeholders.get(empty.as_str()) {
        Some(s) => s.clone(),
        None => String::new(),
    };
    let alternate = match &m.config.alternate {
        Some(pattern) => Some(expanded_path(pattern, &m.placeholders, project_root)),
        None => None,
    };
    let related = match &m.config.related {
        Some(patterns) => expanded_paths(patterns, &m.placeholders, project_root),
        None => Vec::new(),
    };
    let define = match &m.config.define {
        Some(d) => Some(expand_placeholders(d.as_str(), &m.placeholders)),
        None => None,
    };
    let template = match &m.config.template {
        Some(lines) => Some(expand_all(lines, &m.placeholders)),
        None => None,
    };
    let r = ProjectionInfo {
        pattern: m.glob.clone(),
        stem,
        file_type: copy_text(&m.config.file_type),
        alternate,
        related,
        define,
        template,
    };
    assert(r@.related =~= projection_info_of(m@, project_root@).related);
    r
}

/// Get detailed projection information for a file
///
/// One entry per match of the file (relative to the project root), in the
/// order of the matches. Which expanded paths exist is recorded afterwards
/// in their `exists` fields.
pub fn get_projection_info(file_path: &str, project_root: &str, projections: Projections) -> (r:
    InfoResult)
    ensures
        r.file@ == file_path@,
        r.project_root@ == project_root@,
        info_views(r.projections@) == absolute_matches(
            projections@,
            file_path@,
            project_root@,
        ).map_values(|m: MatchView| projection_info_of(m, project_root@)),
{
    let matcher = Matcher::new(projections);
    let matches = matcher.match_absolute_path(file_path, project_root);
    let ghost want = match_views(matches@).map_values(
        |m: MatchView| projection_info_of(m, project_root@),
    );
    let mut infos: Vec<ProjectionInfo> = Vec::new();
    let mut i: usize = 0;
    while i < matches.len()
        invariant
            i <= matches@.len(),
            infos@.len() == i,
            want == match_views(matches@).map_values(
                |m: MatchView| projection_info_of(m, project_root@),
            ),
            info_views(infos@) == want.take(i as int),
        decreases matches@.len() - i,
    {
        let info = build_projection_info(&matches[i], project_root);
        let ghost before = infos@;
        infos.push(info);
        assert(info_views(infos@) =~= want.take(i + 1)) by {
            assert(infos@ == before.push(info));
            assert(forall|k: int| 0 <= k < i ==> info_views(before)[k] == want.take(i as int)[k]);
        }
        i += 1;
    }
    assert(want.take(matches@.len() as int) =~= want);
    InfoResult { file: file_path.to_owned(), project_root: project_root.to_owned(), projections: infos }
}

} // verus!

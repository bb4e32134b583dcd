//! Finding the root directory of a project from a file or directory inside it.
//!
//! The directories from the starting one up to the file system root are
//! probed by the caller (does it hold a projections configuration file, does
//! it hold a project marker such as `.git`); the decision is made here.
use vstd::prelude::*;

verus! {

/// Configuration file paths to check, in priority order
pub const CONFIG_PATHS: [&'static str; 2] = [".projections.json", ".zed/projections.json"];

/// Project markers that indicate a project root
pub const PROJECT_MARKERS: [&'static str; 11] = [
    ".git",
    ".hg",
    ".svn",
    "package.json",
    "Cargo.toml",
    "go.mod",
    "pyproject.toml",
    "setup.py",
    "pom.xml",
    "build.gradle",
    "Gemfile",
];

/// What was found in one directory on the way up.
pub struct DirProbe {
    /// The directory
    pub dir: String,
    /// Whether it holds one of the `CONFIG_PATHS`
    pub has_config: bool,
    /// Whether it holds one of the `PROJECT_MARKERS`
    pub has_marker: bool,
}

/// The index of the first probe with a configuration file.
pub open spec fn first_config(ps: Seq<DirProbe>) -> Option<int>
    decreases ps.len(),
{
    if ps.len() == 0 {
        None
    } else if ps[0].has_config {
        Some(0)
    } else {
        match first_config(ps.drop_first()) {
            Some(i) => Some(i + 1),
            None => None,
        }
    }
}

/// The index of the first probe with a project marker.
pub open spec fn first_marker(ps: Seq<DirProbe>) -> Option<int>
    decreases ps.len(),
{
    if ps.len() == 0 {
        None
    } else if ps[0].has_marker {
        Some(0)
    } else {
        match first_marker(ps.drop_first()) {
            Some(i) => Some(i + 1),
            None => None,
        }
    }
}

/// The nearest directory with a configuration file.
pub open spec fn config_root_of(ps: Seq<DirProbe>) -> Option<Seq<char>> {
    match first_config(ps) {
        Some(i) => Some(ps[i].dir@),
        None => None,
    }
}

/// The nearest directory with a configuration file, else the nearest with a
/// project marker.
pub open spec fn project_root_of(ps: Seq<DirProbe>) -> Option<Seq<char>> {
    match first_config(ps) {
        Some(i) => Some(ps[i].dir@),
        None => match first_marker(ps) {
            Some(i) => Some(ps[i].dir@),
            None => None,
        },
    }
}

pub proof fn lemma_first_config(ps: Seq<DirProbe>)
    ensures
        first_config(ps) matches Some(i) ==> 0 <= i < ps.len() && ps[i].has_config && forall|k: int|
            0 <= k < i ==> !(#[trigger] ps[k]).has_config,
        first_config(ps) is None ==> forall|k: int|
            0 <= k < ps.len() ==> !(#[trigger] ps[k]).has_config,
    decreases ps.len(),
{
    if ps.len() > 0 {
        lemma_first_config(ps.drop_first());
        assert(forall|k: int| 0 <= k < ps.len() - 1 ==> ps.drop_first()[k] == ps[k + 1]);
        assert forall|k: int| 0 < k < ps.len() implies ps[k] == ps.drop_first()[k - 1] by {}
    }
}

pub proof fn lemma_first_marker(ps: Seq<DirProbe>)
    ensures
        first_marker(ps) matches Some(i) ==> 0 <= i < ps.len() && ps[i].has_marker && forall|k: int|
            0 <= k < i ==> !(#[trigger] ps[k]).has_marker,
        first_marker(ps) is None ==> forall|k: int|
            0 <= k < ps.len() ==> !(#[trigger] ps[k]).has_marker,
    decreases ps.len(),
{
    if ps.len() > 0 {
        lemma_first_marker(ps.drop_first());
        assert(forall|k: int| 0 <= k < ps.len() - 1 ==> ps.drop_first()[k] == ps[k + 1]);
        assert forall|k: int| 0 < k < ps.len() implies ps[k] == ps.drop_first()[k - 1] by {}
    }
}

/// Find the project root by walking up the directory tree
///
/// `ancestors` are the probes of the starting directory and each parent in
/// turn. Priority:
/// 1. Directory containing a projections config file (highest priority)
/// 2. Directory containing a project marker (.git, package.json, etc.)
pub fn find_project_root(ancestors: &Vec<DirProbe>) -> (r: Option<String>)
    ensures
        match r {
            Some(d) => project_root_of(ancestors@) == Some(d@),
            None => project_root_of(ancestors@) is None,
        },
{
    let mut marker_root: Option<usize> = None;
    let mut i: usize = 0;
    proof {
        lemma_first_config(ancestors@);
        lemma_first_marker(ancestors@);
    }
    while i < ancestors.len()
        invariant
            i <= ancestors@.len(),
            forall|k: int| 0 <= k < i ==> !(#[trigger] ancestors@[k]).has_config,
            match marker_root {
                Some(m) => m < i && first_marker(ancestors@) == Some(m as int),
                None => forall|k: int| 0 <= k < i ==> !(#[trigger] ancestors@[k]).has_marker,
            },
            first_config(ancestors@) matches Some(c) ==> 0 <= c < ancestors@.len()
                && ancestors@[c].has_config && forall|k: int|
                0 <= k < c ==> !(#[trigger] ancestors@[k]).has_config,
            first_config(ancestors@) is None ==> forall|k: int|
                0 <= k < ancestors@.len() ==> !(#[trigger] ancestors@[k]).has_config,
            first_marker(ancestors@) matches Some(c) ==> 0 <= c < ancestors@.len()
                && ancestors@[c].has_marker && forall|k: int|
                0 <= k < c ==> !(#[trigger] ancestors@[k]).has_marker,
            first_marker(ancestors@) is None ==> forall|k: int|
                0 <= k < ancestors@.len() ==> !(#[trigger] ancestors@[k]).has_marker,
        decreases ancestors@.len() - i,
    {
        // Check for projections config first (highest priority)
        if ancestors[i].has_config {
            return Some(ancestors[i].dir.clone());
        }
        // Check for project markers
        if marker_root.is_none() && ancestors[i].has_marker {
            marker_root = Some(i);
        }
        i += 1;
    }
    // If we found a marker but no projections config, use the marker root
    match marker_root {
        Some(m) => Some(ancestors[m].dir.clone()),
        None => None,
    }
}

/// Find the project root, requiring a projections config to exist
///
/// `ancestors` are the probes of the starting directory and each parent in turn.
pub fn find_project_root_with_projections(ancestors: &Vec<DirProbe>) -> (r: Option<String>)
    ensures
        match r {
            Some(d) => config_root_of(ancestors@) == Some(d@),
            None => config_root_of(ancestors@) is None,
        },
{
    let mut i: usize = 0;
    proof {
        lemma_first_config(ancestors@);
    }
    while i < ancestors.len()
        invariant
            i <= ancestors@.len(),
            forall|k: int| 0 <= k < i ==> !(#[trigger] ancestors@[k]).has_config,
            first_config(ancestors@) matches Some(c) ==> 0 <= c < ancestors@.len()
                && ancestors@[c].has_config && forall|k: int|
                0 <= k < c ==> !(#[trigger] ancestors@[k]).has_config,
            first_config(ancestors@) is None ==> forall|k: int|
                0 <= k < ancestors@.len() ==> !(#[trigger] ancestors@[k]).has_config,
        decreases ancestors@.len() - i,
    {
        if ancestors[i].has_config {
            return Some(ancestors[i].dir.clone());
        }
        i += 1;
    }
    None
}

/// A directory with a configuration file wins over every directory with only
/// a marker: where a configuration file is found on the way up, the project
/// root is the directory that `find_project_root_with_projections` finds.
pub proof fn law_config_takes_priority(ps: Seq<DirProbe>)
    ensures
        config_root_of(ps) is Some ==> project_root_of(ps) == config_root_of(ps),
        config_root_of(ps) is None ==> project_root_of(ps) == (match first_marker(ps) {
            Some(i) => Some(ps[i].dir@),
            None => None::<Seq<char>>,
        }),
{
}

/// The root found is the nearest directory of its kind: no directory below
/// it has a configuration file, and where it was chosen for its marker, no
/// directory below it has a marker either.
pub proof fn law_nearest_root(ps: Seq<DirProbe>)
    ensures
        first_config(ps) matches Some(i) ==> project_root_of(ps) == Some(ps[i].dir@) && forall|
            k: int,
        | 0 <= k < i ==> !(#[trigger] ps[k]).has_config,
        first_config(ps) is None ==> (first_marker(ps) matches Some(i) ==> project_root_of(ps)
            == Some(ps[i].dir@) && forall|k: int| 0 <= k < i ==> !(#[trigger] ps[k]).has_marker),
{
    lemma_first_config(ps);
    lemma_first_marker(ps);
}

} // verus!

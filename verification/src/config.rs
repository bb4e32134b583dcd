//! The configuration of a project: glob patterns mapped to what files of
//! that shape have (an alternate, related files, a type, a template, a
//! search pattern).
use vstd::prelude::*;

use crate::strings::same_text;
use crate::transform::string_views;

verus! {

/// The configuration of one glob pattern.
#[derive(Clone, Debug)]
pub struct ProjectionConfig {
    /// Primary alternate file pattern
    pub alternate: Option<String>,
    /// Related file patterns
    pub related: Option<Vec<String>>,
    /// File type identifier for categorization
    pub file_type: Option<String>,
    /// Template lines for new file creation
    pub template: Option<Vec<String>>,
    /// Search pattern for auto-scroll in related files
    pub define: Option<String>,
}

/// A `ProjectionConfig` with its texts as character sequences.
pub struct ConfigView {
    pub alternate: Option<Seq<char>>,
    pub related: Option<Seq<Seq<char>>>,
    pub file_type: Option<Seq<char>>,
    pub template: Option<Seq<Seq<char>>>,
    pub define: Option<Seq<char>>,
}

pub open spec fn opt_text(o: Option<String>) -> Option<Seq<char>> {
    match o {
        Some(s) => Some(s@),
        None => None,
    }
}

pub open spec fn opt_texts(o: Option<Vec<String>>) -> Option<Seq<Seq<char>>> {
    match o {
        Some(v) => Some(string_views(v@)),
        None => None,
    }
}

impl View for ProjectionConfig {
    type V = ConfigView;

    open spec fn view(&self) -> ConfigView {
        ConfigView {
            alternate: opt_text(self.alternate),
            related: opt_texts(self.related),
            file_type: opt_text(self.file_type),
            template: opt_texts(self.template),
            define: opt_text(self.define),
        }
    }
}

impl Default for ProjectionConfig {
    fn default() -> (r: Self)
        ensures
            r@ == (ConfigView {
                alternate: None,
                related: None,
                file_type: None,
                template: None,
                define: None,
            }),
    {
        ProjectionConfig { alternate: None, related: None, file_type: None, template: None, define: None }
    }
}

/// A copy of an optional string.
pub fn copy_text(o: &Option<String>) -> (r: Option<String>)
    ensures
        opt_text(r) == opt_text(*o),
{
    match o {
        Some(s) => Some(s.clone()),
        None => None,
    }
}

/// A copy of a list of strings.
pub fn copy_texts(v: &Vec<String>) -> (r: Vec<String>)
    ensures
        string_views(r@) == string_views(v@),
{
    let mut r: Vec<String> = Vec::new();
    let mut i: usize = 0;
    while i < v.len()
        invariant
            i <= v@.len(),
            r@.len() == i,
            string_views(r@) == string_views(v@).take(i as int),
        decreases v@.len() - i,
    {
        let ghost before = r@;
        let c = v[i].clone();
        assert(c@ == v@[i as int]@);
        r.push(c);
        assert(r@ == before.push(c));
        i += 1;
        assert forall|k: int| 0 <= k < i implies #[trigger] string_views(r@)[k] == string_views(
            v@,
        ).take(i as int)[k] by {
            if k < i - 1 {
                assert(string_views(before)[k] == string_views(v@).take(i - 1)[k]);
            }
        }
        assert(string_views(r@) =~= string_views(v@).take(i as int));
    }
    assert(string_views(v@).take(v@.len() as int) =~= string_views(v@));
    r
}

/// A copy of an optional list of strings.
pub fn copy_opt_texts(o: &Option<Vec<String>>) -> (r: Option<Vec<String>>)
    ensures
        opt_texts(r) == opt_texts(*o),
{
    match o {
        Some(v) => Some(copy_texts(v)),
        None => None,
    }
}

impl ProjectionConfig {
    /// A copy of this configuration.
    pub fn copy(&self) -> (r: Self)
        ensures
            r@ == self@,
    {
        ProjectionConfig {
            alternate: copy_text(&self.alternate),
            related: copy_opt_texts(&self.related),
            file_type: copy_text(&self.file_type),
            template: copy_opt_texts(&self.template),
            define: copy_text(&self.define),
        }
    }
}

/// The index of the entry with the given glob, if any (the first one).
pub open spec fn index_of_glob(entries: Seq<(Seq<char>, ConfigView)>, glob: Seq<char>) -> Option<
    int,
>
    decreases entries.len(),
{
    if entries.len() == 0 {
        None
    } else {
        match index_of_glob(entries.drop_last(), glob) {
            Some(i) => Some(i),
            None => if entries.last().0 == glob {
                Some(entries.len() - 1)
            } else {
                None
            },
        }
    }
}

pub proof fn lemma_index_of_glob(entries: Seq<(Seq<char>, ConfigView)>, glob: Seq<char>)
    ensures
        index_of_glob(entries, glob) matches Some(i) ==> 0 <= i < entries.len() && entries[i].0
            == glob && forall|k: int| 0 <= k < i ==> entries[k].0 != glob,
        index_of_glob(entries, glob) is None ==> forall|k: int|
            0 <= k < entries.len() ==> entries[k].0 != glob,
    decreases entries.len(),
{
    if entries.len() > 0 {
        lemma_index_of_glob(entries.drop_last(), glob);
        assert(forall|k: int| 0 <= k < entries.len() - 1 ==> entries.drop_last()[k] == entries[k]);
    }
}

/// The entries after setting the configuration of a glob: the entry of that
/// glob is replaced in place, or a new entry is added at the end.
pub open spec fn with_entry(
    entries: Seq<(Seq<char>, ConfigView)>,
    glob: Seq<char>,
    config: ConfigView,
) -> Seq<(Seq<char>, ConfigView)> {
    match index_of_glob(entries, glob) {
        Some(i) => entries.update(i, (glob, config)),
        None => entries.push((glob, config)),
    }
}

/// No two entries have the same glob.
pub open spec fn distinct_globs(entries: Seq<(Seq<char>, ConfigView)>) -> bool {
    forall|i: int, j: int| 0 <= i < j < entries.len() ==> entries[i].0 != entries[j].0
}

/// Setting the configuration of a glob keeps the globs distinct.
pub proof fn law_with_entry_keeps_globs_distinct(
    entries: Seq<(Seq<char>, ConfigView)>,
    glob: Seq<char>,
    config: ConfigView,
)
    requires
        distinct_globs(entries),
    ensures
        distinct_globs(with_entry(entries, glob, config)),
        index_of_glob(with_entry(entries, glob, config), glob) matches Some(i) && with_entry(
            entries,
            glob,
            config,
        )[i] == (glob, config),
{
    lemma_index_of_glob(entries, glob);
    let r = with_entry(entries, glob, config);
    lemma_index_of_glob(r, glob);
    match index_of_glob(entries, glob) {
        Some(k) => {
            assert forall|i: int, j: int| 0 <= i < j < r.len() implies r[i].0 != r[j].0 by {
                assert(r[i].0 == entries[i].0);
                assert(r[j].0 == entries[j].0);
            }
            assert(r[k].0 == glob);
        },
        None => {
            assert forall|i: int, j: int| 0 <= i < j < r.len() implies r[i].0 != r[j].0 by {
                if j < entries.len() {
                    assert(r[i] == entries[i]);
                    assert(r[j] == entries[j]);
                }
            }
            assert(r[entries.len() as int].0 == glob);
        },
    }
}

pub open spec fn entry_view(e: (String, ProjectionConfig)) -> (Seq<char>, ConfigView) {
    (e.0@, e.1@)
}

/// The glob patterns of a project with their configurations, in the order of
/// their entries. Each glob has at most one entry.
pub struct Projections {
    entries: Vec<(String, ProjectionConfig)>,
}

impl View for Projections {
    type V = Seq<(Seq<char>, ConfigView)>;

    closed spec fn view(&self) -> Seq<(Seq<char>, ConfigView)> {
        self.entries@.map_values(|e: (String, ProjectionConfig)| entry_view(e))
    }
}

impl Projections {
    #[verifier::type_invariant]
    closed spec fn globs_distinct(self) -> bool {
        distinct_globs(self@)
    }

    /// No glob patterns.
    pub fn new() -> (r: Self)
        ensures
            r@ == Seq::<(Seq<char>, ConfigView)>::empty(),
            distinct_globs(r@),
    {
        let r = Projections { entries: Vec::new() };
        assert(r@ =~= Seq::<(Seq<char>, ConfigView)>::empty());
        r
    }

    /// The number of glob patterns (no two of them the same).
    pub fn len(&self) -> (r: usize)
        ensures
            r == self@.len(),
            distinct_globs(self@),
    {
        proof {
            use_type_invariant(self);
        }
        self.entries.len()
    }

    /// The glob of the `i`-th entry.
    pub fn glob_at(&self, i: usize) -> (r: &String)
        requires
            i < self@.len(),
        ensures
            r@ == self@[i as int].0,
    {
        &self.entries[i].0
    }

    /// The configuration of the `i`-th entry.
    pub fn config_at(&self, i: usize) -> (r: &ProjectionConfig)
        requires
            i < self@.len(),
        ensures
            r@ == self@[i as int].1,
    {
        &self.entries[i].1
    }

    fn find(&self, glob: &str) -> (r: Option<usize>)
        ensures
            match r {
                Some(i) => index_of_glob(self@, glob@) == Some(i as int) && i < self@.len(),
                None => index_of_glob(self@, glob@) is None,
            },
            self@.len() == self.entries@.len(),
    {
        let mut i: usize = 0;
        while i < self.entries.len()
            invariant
                i <= self@.len(),
                self@.len() == self.entries@.len(),
                forall|k: int| 0 <= k < i ==> self@[k].0 != glob@,
            decreases self@.len() - i,
        {
            assert(self@[i as int].0 == self.entries@[i as int].0@);
            if same_text(self.entries[i].0.as_str(), glob) {
                proof {
                    lemma_index_of_glob(self@, glob@);
                }
                return Some(i);
            }
            i += 1;
        }
        proof {
            lemma_index_of_glob(self@, glob@);
        }
        None
    }

    /// Whether a glob has an entry.
    pub fn contains_key(&self, glob: &str) -> (r: bool)
        ensures
            r == (index_of_glob(self@, glob@) is Some),
    {
        self.find(glob).is_some()
    }

    /// The configuration of a glob, if it has one.
    pub fn get(&self, glob: &str) -> (r: Option<&ProjectionConfig>)
        ensures
            match r {
                Some(c) => index_of_glob(self@, glob@) matches Some(i) && c@ == self@[i].1,
                None => index_of_glob(self@, glob@) is None,
            },
    {
        match self.find(glob) {
            Some(i) => Some(&self.entries[i].1),
            None => None,
        }
    }

    /// Sets the configuration of a glob, replacing the one it had.
    pub fn insert(&mut self, glob: String, config: ProjectionConfig)
        ensures
            final(self)@ == with_entry(old(self)@, glob@, config@),
            distinct_globs(final(self)@),
    {
        proof {
            use_type_invariant(&*self);
            law_with_entry_keeps_globs_distinct(self@, glob@, config@);
        }
        let found = self.find(glob.as_str());
        let mut entries: Vec<(String, ProjectionConfig)> = Vec::new();
        std::mem::swap(&mut entries, &mut self.entries);
        match found {
            Some(i) => {
                entries.set(i, (glob, config));
            },
            None => {
                entries.push((glob, config));
            },
        }
        proof {
            let v = entries@.map_values(|e: (String, ProjectionConfig)| entry_view(e));
            assert(v =~= with_entry(old(self)@, glob@, config@));
        }
        self.entries = entries;
    }
}

} // verus!

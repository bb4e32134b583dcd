//! Creating a new file from the template of the projection it matches.
use vstd::prelude::*;

use crate::commands::info::{expand_all, expanded_all};
use crate::config::Projections;
use crate::matcher::{absolute_matches, match_views, MatchView, Matcher};
use crate::strings::{push_char};
use crate::transform::string_views;

verus! {

/// Errors of creating a file from a template
pub enum CreateError {
    NoProjectRoot,
    ConfigError(String),
    NoTemplateFound(String),
    IoError(String),
    FileExists(String),
}

/// Result of creating a file
pub struct CreateResult {
    /// The path of the created file
    pub path: String,
    /// The content that was written
    pub content: String,
    /// The project root used
    pub project_root: String,
}

/// The lines joined with a line feed between each two.
pub open spec fn joined_lines(lines: Seq<Seq<char>>) -> Seq<char>
    decreases lines.len(),
{
    if lines.len() == 0 {
        seq![]
    } else if lines.len() == 1 {
        lines[0]
    } else {
        joined_lines(lines.drop_last()) + seq!['\n'] + lines.last()
    }
}

/// The index of the first match that has a template.
pub open spec fn first_with_template(ms: Seq<MatchView>) -> Option<int>
    decreases ms.len(),
{
    if ms.len() == 0 {
        None
    } else if ms[0].config.template is Some {
        Some(0)
    } else {
        match first_with_template(ms.drop_first()) {
            Some(i) => Some(i + 1),
            None => None,
        }
    }
}

proof fn lemma_first_with_template(ms: Seq<MatchView>, i: int)
    requires
        0 <= i <= ms.len(),
        forall|k: int| 0 <= k < i ==> (#[trigger] ms[k]).config.template is None,
    ensures
        i < ms.len() && ms[i].config.template is Some ==> first_with_template(ms) == Some(i),
        i == ms.len() ==> first_with_template(ms) is None,
    decreases i,
{
    if i > 0 {
        assert(forall|k: int| 0 <= k < ms.len() - 1 ==> ms.drop_first()[k] == ms[k + 1]);
        assert(ms[0].config.template is None);
        lemma_first_with_template(ms.drop_first(), i - 1);
    }
}

/// The content of a file created from the template of a match: its lines
/// expanded, joined with line feeds.
pub open spec fn created_content(m: MatchView) -> Seq<char> {
    joined_lines(expanded_all(m.config.template.unwrap(), m.placeholders))
}

fn join_lines(lines: &Vec<String>) -> (r: String)
    ensures
        r@ == joined_lines(string_views(lines@)),
{
    let ghost ls = string_views(lines@);
    let mut out = String::new();
    let mut i: usize = 0;
    assert(ls.take(0) =~= Seq::<Seq<char>>::empty());
    while i < lines.len()
        invariant
            i <= lines@.len(),
            ls == string_views(lines@),
            out@ == joined_lines(ls.take(i as int)),
        decreases lines@.len() - i,
    {
        let ghost next = ls.take(i + 1);
        assert(next.drop_last() =~= ls.take(i as int));
        if i > 0 {
            push_char(&mut out, '\n');
        } else {
            assert(out@ + ls[0] =~= ls[0]);
        }
        out.append(lines[i].as_str());
        i += 1;
    }
    assert(ls.take(lines@.len() as int) =~= ls);
    out
}

/// Create a new file from a template
///
/// The file path is matched against the projections relative to the project
/// root; the first match with a template gives the content: its lines with
/// their placeholders expanded, joined with line feeds. Writing the file is
/// left to the caller.
pub fn create_file(file_path: &str, project_root: &str, projections: Projections) -> (r: Result<
    CreateResult,
    CreateError,
>)
    ensures
        match first_with_template(absolute_matches(projections@, file_path@, project_root@)) {
            Some(i) => r matches Ok(c) && c.path@ == file_path@ && c.project_root@
                == project_root@ && c.content@ == created_content(
                absolute_matches(projections@, file_path@, project_root@)[i],
            ),
            None => r matches Err(CreateError::NoTemplateFound(p)) && p@ == file_path@,
        },
{
    let matcher = Matcher::new(projections);
    let matches = matcher.match_absolute_path(file_path, project_root);
    let ghost ms = match_views(matches@);
    let mut i: usize = 0;
    while i < matches.len()
        invariant
            i <= matches@.len(),
            ms == match_views(matches@),
            ms == absolute_matches(projections@, file_path@, project_root@),
            forall|k: int| 0 <= k < i ==> (#[trigger] ms[k]).config.template is None,
        decreases matches@.len() - i,
    {
        assert(ms[i as int] == matches@[i as int]@);
        match &matches[i].config.template {
            Some(template_lines) => {
                proof {
                    lemma_first_with_template(ms, i as int);
                }
                let expanded_lines = expand_all(template_lines, &matches[i].placeholders);
                let content = join_lines(&expanded_lines);
                return Ok(
                    CreateResult {
                        path: file_path.to_owned(),
                        content,
                        project_root: project_root.to_owned(),
                    },
                );
            },
            None => {},
        }
        i += 1;
    }
    proof {
        lemma_first_with_template(ms, ms.len() as int);
    }
    Err(CreateError::NoTemplateFound(file_path.to_owned()))
}


/// Refuses to create a file over an existing one unless forced.
pub fn check_overwrite(file_path: &str, file_exists: bool, force: bool) -> (r: Result<
    (),
    CreateError,
>)
    ensures
        file_exists && !force ==> (r matches Err(CreateError::FileExists(p)) && p@ == file_path@),
        !(file_exists && !force) ==> r is Ok,
{
    if file_exists && !force {
        Err(CreateError::FileExists(file_path.to_owned()))
    } else {
        Ok(())
    }
}

} // verus!

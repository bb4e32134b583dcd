use vstd::prelude::*;

pub mod commands;
pub mod config;
pub mod matcher;
pub mod paths;
pub mod placeholders;
pub mod project;
pub mod strings;
pub mod transform;

pub use commands::alternate::find_alternate;
pub use commands::create::create_file;
pub use commands::info::get_projection_info;
pub use commands::related::find_related;
pub use config::{ProjectionConfig, Projections};
pub use matcher::{MatchResult, Matcher};
pub use project::{find_project_root, find_project_root_with_projections};
pub use transform::{apply_transformations, expand_placeholders};

verus! {

} // verus!

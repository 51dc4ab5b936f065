//! Reconciles fonts offered by remote repositories with the fonts installed on
//! this machine: one aggregate per family, with lazy local resolution, update
//! detection and install/uninstall state transitions.
pub mod catalog;
pub mod font;
pub mod install;
pub mod keyed;
pub mod record;
pub mod remerge;
pub mod repos;
pub mod resolve;
pub mod text;
pub mod update;

pub use catalog::generate_fonts_list;
pub use font::{Attribute, Font};
pub use keyed::StrMap;
pub use record::{LocalFont, Location, RepoFont};
pub use repos::{get_default_repos, repo_url, FontsList, Repositories, Repository};
pub use resolve::{generate_local_font_from_handles, generate_local_fonts, FontHandle};
pub use update::newer_repos;

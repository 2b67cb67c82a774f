//! Discovery and license bookkeeping for Git repositories.
//!
//! The library walks over a listing of filesystem paths, finds the
//! directories that contain a `.git` marker, builds a record for each one
//! (project title, README and LICENSE presence) and matches existing license
//! files against a catalog of known license texts by edit distance.
//! All file, network and terminal work is left to the surrounding
//! application; the library itself is pure and fully verified.

pub mod alike;
pub mod api_communicator;
pub mod error_collector;
pub mod git_dir;
pub mod github_license;
pub mod operating_mode;
pub mod output_printer;
pub mod settings_file;
pub mod text;
pub mod user_input;
pub mod walker;

//! A small directory-organizing library.
//!
//! A configuration file maps subdirectory names to lists of file
//! extensions.  The [`admin::FolderAdministrator`] loads that
//! configuration, decides which subdirectories are missing, and decides
//! where each file of a working directory belongs by its extension.
//! All decisions are made here, on plain values, and carry contracts;
//! the filesystem work itself (reading the configuration file, creating
//! directories, renaming files) is left to the embedding program.

use vstd::prelude::*;

pub mod admin;
pub mod json;
pub mod rules;
pub mod text;

verus! {

/// Fixed name of the configuration file, read from the working
/// directory.  A file of this name is never classified or moved.
pub const CONFIG_FILE_NAME: &'static str = "FolderAdministratorConfig.json";

/// Why a configuration could not be loaded.
#[derive(Debug, Clone, Copy, PartialEq, Eq, Structural)]
pub enum ConfigError {
    /// The configuration file is missing or could not be read.
    NotFound,
    /// The configuration text is not valid JSON, its top level is not
    /// an array, or some element does not have a string `dirname` and
    /// an array-of-strings `extensions`.
    Malformed,
}

} // verus!

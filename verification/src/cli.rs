//! The data that the command line resolves to, free of any argument-parsing
//! machinery.

use vstd::prelude::*;

verus! {

/// A parsed command-line invocation: an optional theme-name override and
/// the command to run.
#[derive(Debug, PartialEq, Eq)]
pub struct Cli {
    /// A theme name override. If not set, the configured theme is used.
    pub theme: Option<String>,
    /// The command to run.
    pub commands: CliCommands,
}

/// The commands a caller can ask for.
#[derive(Debug, PartialEq, Eq)]
pub enum CliCommands {
    /// Play the sound that `sound_name` resolves to in the selected theme.
    Play { sound_name: String },
    /// List the sounds in the selected theme, grouped by search directory.
    List,
}

} // verus!

use vstd::prelude::*;

verus! {

/// The `--older-than` value used when none is given.
pub const DEFAULT_OLDER_THAN: &'static str = "180d";

/// The parsed command line.
pub struct Cli {
    pub command: Commands,
}

/// The subcommands.
pub enum Commands {
    /// List projects and how much space their build artifacts use.
    Scan {
        /// Root directory to search for projects, as the bytes of its path.
        path: Vec<u8>,
    },
    /// Remove build artifacts from projects that haven't been touched recently.
    Clean {
        /// Root directory to search for projects, as the bytes of its path.
        path: Vec<u8>,
        /// Only clean projects with no changes newer than this (e.g. 90d, 6m, 2y).
        older_than: String,
        /// Actually delete directories; without it the run is a dry run.
        apply: bool,
    },
    /// Manage the configuration file.
    Config {
        /// Prompt for a language and append it to the configuration file.
        add_language: bool,
        /// Overwrite the configuration file with the built-in defaults.
        reset: bool,
        /// Print the path of the configuration file.
        print_path: bool,
    },
}

} // verus!

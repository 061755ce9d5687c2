//! `fi config`: its subcommands.
use vstd::prelude::*;

verus! {

/// What `fi config` does.
#[derive(Clone, Copy, PartialEq, Eq, Structural, Debug)]
pub enum ConfigSubcommand {
    /// Check the config file for errors.
    Validate,
    /// Print the current config.
    Show,
    /// Print the path to the active config file.
    Path,
    /// Open the config file in `$EDITOR`.
    Edit,
}

} // verus!

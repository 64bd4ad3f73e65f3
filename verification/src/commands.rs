//! The command line's subcommands.

use crate::package::PackageCommands;
use vstd::prelude::*;

verus! {

/// The subcommands of the command line, of which the package commands are
/// part of this library.
pub enum Commands {
    Package(PackageCommands),
}

} // verus!

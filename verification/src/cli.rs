//! The command surface: the parsed form of every command the tool accepts.
//! Argument parsing itself happens at the program edge; these are the plain
//! values the rest of the library works with.

use vstd::prelude::*;

verus! {

/// A whole invocation: one command.
#[derive(Debug)]
pub struct Cli {
    /// The command to run.
    pub command: Commands,
}

/// Every command the tool accepts.
#[derive(Debug)]
pub enum Commands {
    /// Search for packages across all available package managers.
    Search {
        /// The search query.
        query: String,
        /// Maximum number of results to display.
        limit: usize,
    },
    /// Install a package.
    Install {
        /// Name of the package to install.
        package: String,
        /// The backend to use, when named explicitly.
        backend: Option<String>,
        /// Expected SHA-256 hash of the installed binary, when integrity
        /// verification is requested.
        verify: Option<String>,
    },
    /// List the backends available on this system.
    Backends,
    /// Manage configuration.
    Config {
        /// The configuration action.
        action: ConfigAction,
    },
    /// Manage shims.
    Shims {
        /// The shims action.
        action: ShimsAction,
    },
    /// Update a package to the latest version.
    Update {
        /// Name of the package to update.
        package: String,
        /// The backend to use, when named explicitly.
        backend: Option<String>,
    },
    /// Uninstall a package.
    Uninstall {
        /// Name of the package to uninstall.
        package: String,
        /// The backend to use, when named explicitly.
        backend: Option<String>,
    },
    /// Install the tool itself to the local system.
    SelfInstall,
    /// Diagnose system health and package conflicts.
    Doctor,
}

/// Configuration subcommands.
#[derive(Debug)]
pub enum ConfigAction {
    /// Read one configuration value.
    Get {
        /// The configuration key.
        key: String,
    },
    /// Write one configuration value.
    SetValue {
        /// The configuration key.
        key: String,
        /// The value to store.
        value: String,
    },
    /// List every configuration value.
    List,
    /// Show the configuration file path.
    Path,
}

/// Shim subcommands.
#[derive(Debug)]
pub enum ShimsAction {
    /// List all shims.
    List,
    /// Show the shim directory path.
    Path,
    /// Show the PATH setup instructions.
    Setup,
}

} // verus!

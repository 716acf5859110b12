//! The command line: global options and subcommands.
use vstd::prelude::*;

verus! {

/// Global options and the subcommand.
#[derive(Debug)]
pub struct Cli {
    /// Path to the configuration file.
    pub config: Option<String>,
    pub command: Option<Commands>,
}

/// The subcommands.
#[derive(Debug)]
pub enum Commands {
    /// Launch the GUI.
    Gui,
    /// List detected removable drives.
    Usb { json: bool },
    /// Initialize a backup.
    Init {
        source: String,
        target: String,
        username: Option<String>,
        token: Option<String>,
        gitflare_url: Option<String>,
        volume_size: Option<u64>,
        dedup: Option<bool>,
        interactive: bool,
    },
    /// Discover repositories and show the budget.
    Scan,
    /// Set up or check source authentication.
    Auth {
        username: Option<String>,
        token: Option<String>,
        verify: bool,
        status: bool,
        json: bool,
    },
    /// Clone or fetch repositories from the source.
    Sync { repos: Option<Vec<String>> },
    /// Show repository states.
    Status { repos: Option<Vec<String>>, json: bool },
    /// Extract a repository for offline work.
    Unlock { repo: String },
    /// Recompress an extracted repository.
    Lock { repo: String },
    /// Serve a repository over the LAN.
    Serve { repo: String, stop: bool },
    /// Verify archive integrity.
    Verify { repos: Option<Vec<String>>, verbose: bool },
    /// Repair an archive from its recovery records.
    Repair { repo: String },
    /// Show, get or set configuration values.
    Config { set: Option<String>, get: Option<String> },
    /// Format a drive and initialize it.
    Wipe {
        target: String,
        source: String,
        username: Option<String>,
        token: Option<String>,
        gitflare_url: Option<String>,
        filesystem: Option<String>,
        yes: bool,
    },
    /// Import a local repository.
    Import { repo_path: String, name: Option<String> },
    /// Train a compression dictionary.
    TrainDict { source: Option<String> },
    /// Update the tool.
    Update { check: bool, no_gui: bool, json: bool },
}

/// The subcommands that work without an initialized drive.
pub open spec fn spec_runs_uninitialized(c: Commands) -> bool {
    c is Init || c is Gui || c is Usb || c is Wipe || c is Auth || c is Update
}

impl Commands {
    /// Whether the subcommand needs an initialized drive.
    pub fn requires_init(&self) -> (r: bool)
        ensures
            r == !spec_runs_uninitialized(*self),
    {
        match self {
            Commands::Init { .. } | Commands::Gui | Commands::Usb { .. } | Commands::Wipe { .. }
            | Commands::Auth { .. } | Commands::Update { .. } => false,
            _ => true,
        }
    }
}

} // verus!

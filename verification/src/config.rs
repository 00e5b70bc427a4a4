//! The command line and the configuration of the tool, as plain values.

use vstd::prelude::*;
use vstd::string::StringExecFns;

verus! {

/// What the tool is asked to do.
#[derive(Clone, Copy, Debug, PartialEq, Eq, Structural)]
pub enum Commands {
    /// Download the content of the documents.
    Download {
        /// Download all pages, whatever their publication status.
        all: bool,
    },
    /// Publish downloaded content to the content directory of the site.
    Publish {
        /// Download the content before publishing.
        download: bool,
        /// Publish all pages, whatever their publication status.
        all: bool,
    },
    /// Try the document service out.
    Gdoc,
    /// Fetch the documents and publish them to the content directory of the site.
    Publish2 {
        /// Keep a copy of the documents and of the raw images.
        store: bool,
        /// Publish all pages, whatever their publication status.
        all: bool,
    },
}

/// The command line.
#[derive(Clone, Debug)]
pub struct RootCommand {
    /// Path to the configuration file.
    pub config: String,
    pub command: Commands,
}

/// The configuration file.
#[derive(Clone, Debug)]
pub struct Config {
    pub toc_spreadsheet_url: String,
    pub download_dir: String,
    pub hugo_site_dir: String,
    pub credentials: Option<String>,
    pub concurrency: Option<usize>,
    pub default_author: Option<String>,
}

/// What a command makes the tool do.
#[derive(Clone, Copy, Debug, PartialEq, Eq, Structural)]
pub enum Step {
    /// Tell the user to use `publish2`.
    Redirect,
    /// Run the trial of the document service.
    Trial,
    /// Fetch and publish.
    Publish { store: bool, all: bool },
}

/// The directory for downloads where the configuration names none.
pub fn default_download_dir() -> (r: String)
    ensures
        r@ == "gdoc_data"@,
{
    String::from_str("gdoc_data")
}

/// The number of workers where the configuration names none.
pub const DEFAULT_CONCURRENCY: usize = 20;

impl Config {
    /// The number of workers that fetch documents side by side.
    pub fn workers(&self) -> (r: usize)
        ensures
            r == match self.concurrency {
                Some(n) => n,
                None => DEFAULT_CONCURRENCY,
            },
    {
        match self.concurrency {
            Some(n) => n,
            None => DEFAULT_CONCURRENCY,
        }
    }
}

impl Commands {
    /// What the command makes the tool do: the two older commands only
    /// point to `publish2`.
    pub fn step(self) -> (r: Step)
        ensures
            r == match self {
                Commands::Download { all } => Step::Redirect,
                Commands::Publish { download, all } => Step::Redirect,
                Commands::Gdoc => Step::Trial,
                Commands::Publish2 { store, all } => Step::Publish { store, all },
            },
    {
        match self {
            Commands::Download { all: _ } => Step::Redirect,
            Commands::Publish { download: _, all: _ } => Step::Redirect,
            Commands::Gdoc => Step::Trial,
            Commands::Publish2 { store, all } => Step::Publish { store, all },
        }
    }
}

} // verus!

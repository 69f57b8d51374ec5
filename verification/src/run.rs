//! What one invocation works on: the candidate files and the settings.

use crate::config::Conf;
use vstd::prelude::*;
use vstd::string::*;

verus! {

/// The formats in which results can be written.
#[derive(Clone, Copy, Debug, PartialEq, Eq, Structural)]
pub enum OutputFormat {
    Sarif,
    Text,
}

impl OutputFormat {
    /// The name by which the format is chosen.
    pub open spec fn name(self) -> Seq<char> {
        match self {
            OutputFormat::Sarif => "sarif"@,
            OutputFormat::Text => "text"@,
        }
    }

    /// The name by which the format is chosen.
    pub fn to_possible_value(&self) -> (r: String)
        ensures
            r@ == self.name(),
    {
        match self {
            OutputFormat::Sarif => String::from_str("sarif"),
            OutputFormat::Text => String::from_str("text"),
        }
    }
}

/// The subcommands of the command line.
#[derive(Clone, Copy, Debug, PartialEq, Eq, Structural)]
pub enum Subcommands {
    /// Generate default configuration content
    Genconfig,
}

/// The arguments of the command line.
#[derive(Debug)]
pub struct Cli {
    pub subcommand: Option<Subcommands>,
    pub files: Vec<String>,
    pub upstream: String,
    pub output_format: OutputFormat,
    /// optional cache directory location
    pub cache_dir: String,
    /// optional path to write results to
    pub results: Option<String>,
}

/// One invocation: the files to look at and the settings to apply.
#[derive(Debug)]
pub struct Run {
    /// The candidate files, each named once
    pub paths: Vec<String>,
    pub config: Conf,
    pub is_upstream: bool,
    pub config_path: String,
    pub cache_dir: String,
}

impl Run {
    /// Whether this invocation looks at the upstream state rather than at
    /// the working copy.
    pub fn is_upstream(&self) -> (r: bool)
        ensures
            r == self.is_upstream,
    {
        self.is_upstream
    }
}

/// A candidate file as it was read.
#[derive(Debug)]
pub struct SourceFile {
    pub path: String,
    /// The last component of the path, where it has one
    pub file_name: Option<String>,
    /// The first bytes of the file, up to 4096 of them; `None` where the
    /// file could not be read
    pub head: Option<Vec<u8>>,
    /// The lines of the file
    pub lines: Vec<String>,
}

/// Mathematical value of a [`SourceFile`].
pub struct SourceFileView {
    pub path: Seq<char>,
    pub file_name: Option<Seq<char>>,
    pub head: Option<Seq<u8>>,
    pub lines: Seq<Seq<char>>,
}

impl View for SourceFile {
    type V = SourceFileView;

    open spec fn view(&self) -> SourceFileView {
        SourceFileView {
            path: self.path@,
            file_name: match self.file_name {
                Some(n) => Some(n@),
                None => None,
            },
            head: match self.head {
                Some(h) => Some(h@),
                None => None,
            },
            lines: self.lines@.map_values(|l: String| l@),
        }
    }
}

} // verus!

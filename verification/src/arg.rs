//! The command line of the tool, as plain data.
use vstd::prelude::*;

verus! {

/// The parsed command line.
#[derive(Debug)]
pub struct Arguments {
    /// The subcommand.
    pub act: Action,
    /// Path to the configuration file.
    pub conf_path: Option<String>,
    /// Run modes: any of `test`, `debug`, `time`.
    pub mode: Option<String>,
}

/// The subcommands.
#[derive(Debug)]
pub enum Action {
    /// Load a script and generate files.
    Make(MakeCommand),
    /// List the available scripts.
    List(ListCommand),
    /// Read a file tree and generate a script.
    Read(ReadCommand),
    /// Modify a script.
    Mod(ModCommand),
    /// Remove a script.
    Rm(RmCommand),
}

/// Arguments of `make`.
#[derive(Debug)]
pub struct MakeCommand {
    /// Name of the script to load.
    pub reference_name: String,
    /// Name of the project, the value of `%NAME%`.
    pub project_name: Option<String>,
    /// Directory holding the scripts.
    pub reference_source: Option<String>,
    /// Format of `%DATE%`.
    pub time_format: Option<String>,
    /// Where to generate the files.
    pub output: Option<String>,
}

/// Arguments of `list`.
#[derive(Debug)]
pub struct ListCommand {
    /// Directory holding the scripts.
    pub reference_path: Option<String>,
}

/// Arguments of `read`.
#[derive(Debug)]
pub struct ReadCommand {
    /// File or directory to read.
    pub ref_name: String,
    /// Name of the output file.
    pub output: Option<String>,
    /// Directory in which to start reading.
    pub ref_src: Option<String>,
    /// Description of the generated script.
    pub desc: Option<String>,
}

/// Arguments of `mod`.
#[derive(Debug)]
pub struct ModCommand {
    /// Name of the script.
    pub ref_name: String,
    /// Text editor to use.
    pub editor: Option<String>,
    /// Directory holding the script.
    pub ref_path: Option<String>,
}

/// Arguments of `rm`.
#[derive(Debug)]
pub struct RmCommand {
    /// Name of the script.
    pub ref_name: String,
    /// Directory holding the script.
    pub ref_path: Option<String>,
    /// Answer yes to every question.
    pub confirm_every_question: bool,
    /// Do not keep a backup.
    pub not_keep_backup: bool,
}

} // verus!

//! The data carried by the tool's command line: the generate, doctor and
//! install entry points.  Argument parsing itself happens outside this
//! crate; these types are what the parsed surface hands to the pipeline.

use vstd::prelude::*;

verus! {

/// Arguments of the generate command: the requested template name.
pub struct GenerateArgs {
    pub name: String,
}

/// Arguments of the install command: the install target and its parameters.
pub struct InstallerArgs {
    pub names: Vec<String>,
}

/// The tool's subcommands.
pub enum Commands {
    Generate(GenerateArgs),
    Doctor,
    Install(InstallerArgs),
}

/// A fully parsed command line.
pub struct CliArgs {
    pub command: Commands,
}

} // verus!

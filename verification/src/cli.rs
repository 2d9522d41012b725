//! The command line of the tool, as plain values.
use vstd::prelude::*;
use crate::text::to_string;

verus! {

/// Arguments of the `extract` command.
pub struct ExtractArgs {
    /// Input files.
    pub input: Vec<String>,
    /// Output file.
    pub output: Option<String>,
}

/// The commands of the tool.
pub enum Commands {
    /// Extract knowledge from a text.
    Extract(ExtractArgs),
}

/// The parsed command line.
pub struct Cli {
    pub command: Commands,
}

/// The output file used when none is given.
pub const DEFAULT_OUTPUT: &'static str = "entities.json";

impl ExtractArgs {
    /// The output file: the one given, or `DEFAULT_OUTPUT`.
    pub fn output_path(&self) -> (r: String)
        ensures
            r@ == match self.output {
                Some(o) => o@,
                None => DEFAULT_OUTPUT@,
            },
    {
        match &self.output {
            Some(o) => o.clone(),
            None => to_string(DEFAULT_OUTPUT),
        }
    }
}

} // verus!

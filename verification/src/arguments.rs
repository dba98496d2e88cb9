//! What a run is asked to do: the two numbers, and where the table goes.

use vstd::prelude::*;

verus! {

/// The arguments of one run.
pub struct Args {
    /// The first coefficient of the multiplication.
    pub multiplicand: String,
    /// The second coefficient of the multiplication.
    pub multiplier: String,
    /// The output method: `display`, `store` or `both`.
    pub output: String,
    /// The file name and path of the output file.
    pub file: String,
}

/// The output method asks for the table on the terminal.
pub open spec fn asks_display(output: Seq<char>) -> bool {
    output == "display"@ || output == "both"@
}

/// The output method asks for the table in a file.
pub open spec fn asks_store(output: Seq<char>) -> bool {
    output == "store"@ || output == "both"@
}

impl Args {
    /// Whether the table is to be shown on the terminal.
    pub fn wants_display(&self) -> (wanted: bool)
        ensures
            wanted == asks_display(self.output@),
    {
        self.output == String::from_str("display") || self.output == String::from_str("both")
    }

    /// Whether the table is to be written to the file.
    pub fn wants_store(&self) -> (wanted: bool)
        ensures
            wanted == asks_store(self.output@),
    {
        self.output == String::from_str("store") || self.output == String::from_str("both")
    }
}

} // verus!

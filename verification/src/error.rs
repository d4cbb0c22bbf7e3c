use vstd::prelude::*;
use vstd::string::StringExecFns;

verus! {

/// Why a run cannot go on. None of these is recovered from: the input is
/// mended and the run repeated.
#[derive(Clone, Copy, Debug, PartialEq, Eq, Structural)]
pub enum PipelineError {
    /// A record has no field in a column that is read.
    MissingColumn,
    /// The date of a record cannot be read.
    UnparsableDate,
    /// The price of a record cannot be read.
    UnparsablePrice,
    /// No record is left to report on.
    EmptyInput,
}

impl PipelineError {
    /// The text of `message`.
    pub open spec fn message_text(self) -> Seq<char> {
        match self {
            PipelineError::MissingColumn => "a record lacks a column"@,
            PipelineError::UnparsableDate => "the date of a record cannot be read"@,
            PipelineError::UnparsablePrice => "the price of a record cannot be read"@,
            PipelineError::EmptyInput => "no record is left to report on"@,
        }
    }

    /// A sentence for the person who runs the tool.
    pub fn message(&self) -> (text: String)
        ensures
            text@ == self.message_text(),
    {
        match self {
            PipelineError::MissingColumn => String::from_str("a record lacks a column"),
            PipelineError::UnparsableDate => String::from_str("the date of a record cannot be read"),
            PipelineError::UnparsablePrice => String::from_str("the price of a record cannot be read"),
            PipelineError::EmptyInput => String::from_str("no record is left to report on"),
        }
    }
}

} // verus!

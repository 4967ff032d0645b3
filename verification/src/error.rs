use vstd::prelude::*;

verus! {

/// Why an operation on a sample was refused.
#[derive(Clone, Copy, Debug, PartialEq, Eq, Structural)]
pub enum StatsError {
    /// The operation needs at least one element and the sample had none.
    EmptyInput,
    /// An integer index or rank lies outside the sample.
    OutOfRange,
    /// A continuous argument lies outside its interval, or is not a number.
    BadParams,
}

impl StatsError {
    /// A short description of the error, for messages.
    pub fn message(&self) -> (text: &'static str)
        ensures
            text@ == (match *self {
                StatsError::EmptyInput => "sample is empty"@,
                StatsError::OutOfRange => "index is out of range"@,
                StatsError::BadParams => "bad distribution parameters"@,
            }),
    {
        match self {
            StatsError::EmptyInput => "sample is empty",
            StatsError::OutOfRange => "index is out of range",
            StatsError::BadParams => "bad distribution parameters",
        }
    }
}

} // verus!

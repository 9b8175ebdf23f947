use vstd::prelude::*;

verus! {

/// The failures of one discovery cycle.
#[derive(Debug, Clone)]
pub enum Error {
    /// The request to the Storm UI failed.
    HttpError { url: String, cause: String },
    /// The Storm UI answered with a body that could not be parsed.
    ParseError { url: String, cause: String },
    /// The discovery file could not be written.
    WriteResult { path: String, cause: String },
}

impl Error {
    /// Whether the failure came from the Storm UI rather than from the output file.
    pub fn is_upstream(&self) -> (r: bool)
        ensures
            r == !(self is WriteResult),
    {
        match self {
            Error::WriteResult { .. } => false,
            _ => true,
        }
    }
}

} // verus!

use vstd::prelude::*;
use vstd::string::StringExecFns;

verus! {

/// The closed set of failure kinds of the extraction pipeline.
///
/// Every failure is terminal for the extraction attempt that raised it:
/// nothing is retried.  Each variant but `UnsupportedFormat` carries the
/// human-readable message of the underlying failure.
#[derive(Debug)]
pub enum ParserError {
    /// The input path does not carry the literal `.pdf` extension.
    UnsupportedFormat,
    /// The input file could not be read from disk.
    FileReadError(String),
    /// The decoder could not load the document at all.
    ParseError(String),
    /// The serialized output could not be produced or written.
    JsonWriteError(String),
}

/// The message that `ParserError::message` renders for each variant.
pub open spec fn error_message_spec(e: ParserError) -> Seq<char> {
    match e {
        ParserError::UnsupportedFormat => "Unsupported file format"@,
        ParserError::FileReadError(m) => "Failed to read file: "@ + m@,
        ParserError::ParseError(m) => "Failed to parse document: "@ + m@,
        ParserError::JsonWriteError(m) => "Failed to write JSON: "@ + m@,
    }
}

impl ParserError {
    /// The human-readable message of this error, with the cause's text
    /// appended to a fixed prefix for the variants that carry one.
    pub fn message(&self) -> (r: String)
        ensures
            r@ == error_message_spec(*self),
    {
        match self {
            ParserError::UnsupportedFormat => String::from_str("Unsupported file format"),
            ParserError::FileReadError(m) => String::from_str("Failed to read file: ").concat(
                m.as_str(),
            ),
            ParserError::ParseError(m) => String::from_str("Failed to parse document: ").concat(
                m.as_str(),
            ),
            ParserError::JsonWriteError(m) => String::from_str("Failed to write JSON: ").concat(
                m.as_str(),
            ),
        }
    }
}

} // verus!

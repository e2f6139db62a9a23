use vstd::prelude::*;

verus! {

/// An error encountered during ESI parsing or execution.
///
/// Document-fatal errors abort processing; fragment errors may be absorbed
/// by `onerror="continue"`, an `alt` fallback, or a `try` block before they
/// escalate to one of these.
#[derive(Debug, Clone)]
pub enum ExecutionError {
    /// Invalid XML was encountered during parsing.
    XmlParseError(String),
    /// The document contains a tag with a missing required parameter:
    /// the tag name and the parameter name.
    MissingRequiredParameter(String, String),
    /// The document contains a closing tag without a matching opening tag.
    UnexpectedClosingTag(String),
    /// The document contains an opening tag that is not valid at this point.
    UnexpectedOpeningTag(String),
    /// A fragment URL in the template could not be parsed.
    InvalidRequestUrl(String),
    /// A fragment request could not be delivered to a backend.
    RequestError(String),
    /// A fragment request returned an unexpected HTTP status code:
    /// the fragment URL and the status.
    UnexpectedStatus(String, u16),
    /// The output sink failed while bytes were being written to it.
    WriterError(String),
}

} // verus!

//! Errors of the library.

use vstd::prelude::*;

verus! {

/// What went wrong while talking to the generation service, or while
/// setting it up.
#[derive(Clone, Debug)]
pub enum OllamaError {
    /// The HTTP request could not be sent or completed.
    RequestError(String),
    /// A URL could not be formed.
    UrlError(String),
    /// A body could not be encoded or decoded.
    JsonError(String),
    /// The service answered with a failure status.
    ApiError { message: String, status_code: Option<u16> },
    /// An input was rejected.
    ValidationError(String),
    /// Logging could not be set up.
    TracingError(String),
    /// The service could not be reached.
    Connection(String),
    /// The service failed to generate tags.
    Generation(String),
    /// A response could not be understood.
    Parse(String),
    /// The service is not installed or lacks the model.
    Setup(String),
    /// The connection failed.
    ConnectionError(String),
    /// Generation failed.
    GenerationError(String),
    /// Parsing failed.
    ParseError(String),
}

/// A configuration that no run can start from.
#[derive(Clone, Copy, Debug, PartialEq, Eq, Structural)]
pub enum ConfigurationError {
    /// The smallest depth lies above the largest.
    DepthBounds { min_depth: usize, max_depth: usize },
}

} // verus!

//! Discovery, classification and tagging of project directories, with a
//! deterministic ordering of the resulting index.
//!
//! Reading the file system, running version-control queries and talking to
//! the text-generation service happen outside this library; the decisions
//! taken on what those produce are made here, behind checked contracts.

pub mod cli;
pub mod error;
pub mod generation;
pub mod indexer;
pub mod laws;
pub mod paths;
pub mod project;
pub mod stats;
pub mod tags;
pub mod text;

pub use error::{ConfigurationError, OllamaError};
pub use generation::{ClientConfig, EmbeddingRequest, GenerateRequest, GenerateResponse};
pub use project::{Project, ProjectStatus};
pub use indexer::{IndexerConfig, ProjectIndexer};
pub use cli::{parse_args, Cli, Commands};

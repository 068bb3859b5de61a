//! Reading and checking the persisted layout of HNSW vector indices.
pub mod error;
pub mod extractor;
pub mod header;
pub mod importer;
pub mod metadata;
pub mod request;

pub use error::ExtractError;
pub use header::{HeaderWordSize, PersistentHeader, HNSW_PERSISTENCE_VERSION};
pub use metadata::{join_metadata, MetadataEntry};
pub use extractor::{
    extract_index_with_header, ExtractOptions, ExtractSummary, ExtractedRecord, OutputFormat,
};
pub use importer::{BuildOptions, BuildSummary, DistanceMetric, InputFormat};

//! The error type shared by every operation of the library.
use std::io;
use std::path::PathBuf;

use vstd::prelude::*;

verus! {

/// `std::io::Error`, carried through unchanged.
#[verifier::external_type_specification]
#[verifier::external_body]
pub struct ExIoError(io::Error);

/// `std::path::PathBuf`, carried through unchanged.
#[verifier::external_type_specification]
#[verifier::external_body]
pub struct ExPathBuf(PathBuf);

/// `serde_pickle::Error`, carried through unchanged.
#[verifier::external_type_specification]
#[verifier::external_body]
pub struct ExPickleError(serde_pickle::Error);

/// `serde_json::Error`, carried through unchanged.
#[verifier::external_type_specification]
#[verifier::external_body]
pub struct ExJsonError(serde_json::Error);

/// `arrow_schema::ArrowError`, carried through unchanged.
#[verifier::external_type_specification]
#[verifier::external_body]
pub struct ExArrowError(arrow_schema::ArrowError);

/// `parquet::errors::ParquetError`, carried through unchanged.
#[verifier::external_type_specification]
#[verifier::external_body]
pub struct ExParquetError(parquet::errors::ParquetError);

/// Why a persisted header was refused.
#[derive(Debug, Clone, PartialEq, Eq)]
pub enum HeaderError {
    /// The header is neither 100 bytes (64-bit words) nor 60 bytes (32-bit words).
    UnexpectedLength { len: usize },
    /// The persistence version is not the supported one.
    UnsupportedVersion { found: i32 },
    /// More elements are stored than the index has room for.
    ElementCountExceedsCapacity { cur_element_count: u64, max_elements: u64 },
    /// The vector payload does not start before the label.
    DataOffsetNotBeforeLabel { offset_data: u64, label_offset: u64 },
    /// The label does not fit inside a record.
    LabelExceedsRecord { label_offset: u64, label_width: usize, size_data_per_element: u64 },
    /// The vector payload is empty or not a whole number of `f32` lanes.
    InvalidVectorPayload { vector_bytes: u64 },
    /// The delete marker (two bytes past `offset_level0`) lies outside a record.
    DeleteMarkerOutOfBounds { offset_level0: u64, size_data_per_element: u64 },
    /// Fewer bytes remained than a field needs.
    EndedEarly { offset: usize, need: usize },
    /// Bytes remained after the last field.
    TrailingBytes { count: usize },
}

/// Why the persisted records are inconsistent with their header or with each other.
#[derive(Debug, Clone, PartialEq, Eq)]
pub enum CorruptIndexError {
    /// `max_elements * size_data_per_element` does not fit in 64 bits.
    CapacityBytesOverflow,
    /// `size_data_per_element` does not fit in `usize`.
    RecordSizeTooLarge { size_data_per_element: u64 },
    /// `cur_element_count * size_data_per_element` does not fit in 64 bits.
    ElementBytesOverflow,
    /// The level-0 data is shorter than the stored elements need.
    DataTooSmall { available: u64, needed: u64 },
    /// The label field reaches past the end of a record.
    LabelOutOfRecord,
    /// The vector field reaches past the end of a record.
    VectorOutOfRecord,
    /// The vector field is not a whole number of `f32` lanes.
    VectorBytesNotAligned { len: usize },
    /// A record's vector does not have the dimension of the output.
    VectorDimensionMismatch { found: usize, expected: usize },
    /// The output schema has no fixed-size `vector` column.
    VectorFieldMissing,
}

/// Why the pickled metadata tables were refused.
#[derive(Debug, Clone, PartialEq, Eq)]
pub enum MetadataError {
    /// `label_to_id` holds a negative label.
    NegativeLabel { label: i64 },
    /// `id_to_seq_id` holds a negative sequence id.
    NegativeSeqId { seq_id: i64, user_id: String },
}

/// The input columns that hold integers.
#[derive(Debug, Clone, Copy, PartialEq, Eq, Structural)]
pub enum IntColumn {
    Label,
    InternalId,
    Deleted,
}

/// Why a build request or one of its input rows was refused.
#[derive(Debug, Clone, PartialEq, Eq)]
pub enum InputError {
    /// `m` is below 2.
    MTooSmall { m: usize },
    /// `m0` is below 2.
    M0TooSmall { m0: usize },
    /// `ef_construction` is below `m`.
    EfConstructionBelowM { ef_construction: usize, m: usize },
    /// `batch_size` is zero.
    ZeroBatchSize,
    /// The input has no `vector` column.
    MissingVectorColumn,
    /// An integer cell is null.
    NullValue { column: IntColumn, row: usize },
    /// An integer cell that must be non-negative is negative.
    NegativeValue { column: IntColumn, row: usize, value: i64 },
    /// A column that must hold integers holds another type.
    NotInteger { column: IntColumn, data_type: String },
    /// The vector column is not a list type.
    VectorColumnType { data_type: String },
    /// A vector cell is null.
    VectorNull { row: usize },
    /// A vector holds values that are neither `f32` nor `f64`.
    VectorValueType { row: usize, data_type: String },
    /// A vector holds a null value.
    VectorNullElement { row: usize, position: usize },
    /// A vector is empty.
    VectorEmpty { row: usize },
    /// A vector's dimension differs from the first vector's.
    VectorDimensionMismatch { row: usize, found: usize, expected: usize },
}

/// Every way in which an extraction or a build can fail.
#[derive(Debug)]
pub enum ExtractError {
    Io(io::Error),
    Pickle(serde_pickle::Error),
    Json(serde_json::Error),
    Arrow(arrow_schema::ArrowError),
    Parquet(parquet::errors::ParquetError),
    InvalidHeader(HeaderError),
    UnsupportedEndianness,
    UnsupportedWordSize(u8),
    CorruptIndex(CorruptIndexError),
    Metadata(MetadataError),
    InvalidInput(InputError),
    MissingFile(PathBuf),
}

} // verus!

//! Apache Avro file-format adapter: file extension, compression policy,
//! schema merging across files and statistics for a columnar query engine.

pub mod error;
pub mod format;
pub mod merge_laws;
pub mod metadata;
pub mod schema;
pub mod statistics;

pub use error::AvroError;
pub use format::{AvroFormat, AvroFormatFactory};
pub use metadata::Metadata;
pub use schema::{DataKind, Field, Schema};
pub use statistics::{ColumnStatistics, Precision, Statistics};

pub mod decode;
pub mod filter;
pub mod selection;
pub mod stats;

pub use decode::DecodeError;
pub use decode::RawBatch;
pub use decode::RawColumn;
pub use decode::SchemaIssue;
pub use filter::FilterArray;
pub use filter::QueryFilters;
pub use filter::RowFlag;
pub use selection::Segment;
pub use stats::AggregateStats;

//! kitokei: count syntax-query capture matches over source files.
//!
//! The library resolves a file's language from its extension, compiles and
//! caches one syntax query per language, tallies query capture matches for a
//! file's content, merges per-file tallies into one aggregate, and renders the
//! aggregate as a sorted, filtered table.

pub mod analyze;
pub mod counts;
pub mod errors;
pub mod language;
pub mod report;
pub mod ts;

pub use analyze::{capture_counts, counts_from_names, parse_file, QueryCache};
pub use counts::{combine_counts, Aggregate, CaptureCounts};
pub use errors::{AnalyzeError, RunError};
pub use language::{Capabilities, Language};
pub use report::{render_rows, table};

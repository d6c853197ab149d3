//! Verified core of a scanned-book cleaning pipeline.
//!
//! Image analysis: content boundaries from connected components
//! (`content`), Laplacian and Sobel filters (`filters`), highlighter removal
//! with exact HSV (`marker`), blur decisions (`cleanup`), edge shadows
//! (`shadow`) and the integer statistics of vertical-writing detection
//! (`vertical`). Book-level decisions: Tukey-fence group crops (`group`),
//! page-number readings and their summaries (`page_number`, `roman`) and the
//! physical-to-logical offset analysis (`offset`). Around them: progress
//! reporting, the Markdown export records, and the settings and records of
//! the HTTP front end.

pub mod geometry;
pub mod sorting;
pub mod text;
pub mod content;
pub mod filters;
pub mod marker;
pub mod cleanup;
pub mod shadow;
pub mod vertical;
pub mod group;
pub mod page_number;
pub mod roman;
pub mod offset;
pub mod progress;
pub mod markdown;
pub mod render;
pub mod validate;
pub mod cors;
pub mod auth;
pub mod batch;
pub mod shutdown;
pub mod server;
pub mod persistence;
pub mod metrics;

//! An in-memory inverted text index.
//!
//! Documents are split into whitespace-delimited tokens; each token maps to
//! the ordered list of identifiers of the documents that contain it, with
//! duplicates kept. A companion module classifies the outcome of fetching a
//! web page and extracting its title.

pub mod crawl;
pub mod index;
pub mod laws;
pub mod token;

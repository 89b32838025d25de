//! Fuzzy string matching and ranking for record labels.
//!
//! The heart of the crate is a scoring engine that decides whether a query
//! (the pattern) occurs as a case-insensitive ordered subsequence of a
//! candidate label (the document), and if so assigns it an integer relevance
//! score together with the document positions that were matched.  A cheaper
//! boolean pre-filter answers only the subsequence question.  The remaining
//! modules hold the plain data types that manifest records are parsed into;
//! fetching and deserializing those records is the caller's business.

pub mod casefold;
pub mod manifest;
pub mod matching;
pub mod subseq;

pub use manifest::RiskClass;
pub use manifest::RiskItem;
pub use matching::fuzzy_match;
pub use matching::fuzzy_match_simple;

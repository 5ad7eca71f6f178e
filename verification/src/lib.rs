//! Verified core of a multilingual content-processing service.
//!
//! The library holds the logic of the job pipeline: the segmenter that cuts a
//! document into token-budgeted units, the repair pass for nearly-valid JSON
//! arrays coming back from a language model, the request/response handling of
//! the model client, the job runners' bookkeeping (progress, ordered
//! reassembly, freshness), the artifact-store row types with their field
//! validation, and the search path's filtering and deduplication. Network and
//! store I/O stay outside; the functions here take and return plain values.

pub mod chars;
pub mod conf;
pub mod content;
pub mod erring;
pub mod ids;
pub mod lang;
pub mod model;
pub mod jobs;
pub mod jsonfix;
pub mod llm;
pub mod search;
pub mod segment;
pub mod store;
pub mod tokenizer;

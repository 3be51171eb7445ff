//! Decision core of a local memory store.
//!
//! The crate holds the rules of the store: request validation, text
//! normalisation, digests, archive framing, retrieval pools, graph evidence
//! joins and the lifecycle of memories and candidates. Every function works on
//! plain values and is proved against its contract. Reading and writing the
//! database is left to the program around it.

pub mod admissions;
pub mod archive;
pub mod candidates;
pub mod capture;
pub mod chunks;
pub mod consolidation;
pub mod context;
pub mod digest;
pub mod documents;
pub mod dream;
pub mod entities;
pub mod error;
pub mod evidence;
pub mod expansion;
pub mod filters;
pub mod hex;
pub mod hybrid;
pub mod import;
pub mod integrity;
pub mod json;
pub mod late;
pub mod laws;
pub mod listing;
pub mod memory;
pub mod merging;
pub mod neighbors;
pub mod order;
pub mod pack;
pub mod pack_queries;
pub mod paths;
pub mod pool;
pub mod ranking;
pub mod recall;
pub mod records;
pub mod relationships;
pub mod remember;
pub mod representation;
pub mod requests;
pub mod rerank;
pub mod roundtrip;
pub mod routes;
pub mod schema;
pub mod search;
pub mod similar;
pub mod spaces;
pub mod sql;
pub mod statements;
pub mod stats;
pub mod supersession;
pub mod terms;
pub mod text;
pub mod traversal;
pub mod validate;
pub mod vocabulary;
pub mod writing;

//! Verified core of a local-first semantic code search engine.
//!
//! The library holds what the engine decides and computes: how a source file
//! falls into chunks, how the answers of the vector store and of the lexical
//! store are fused into one ranking, how results are merged and packed into
//! a token budget, and what an indexing run does with each file. Each
//! function states what it returns over mathematical models of its data,
//! and the statements are proved.
//!
//! Reading and writing files, the stores themselves, the models and the
//! network are left to the program around the library, which hands it plain
//! values and takes plain values back. Two outside libraries are called from
//! here, each behind a function whose contract is taken on trust: the parser
//! in `syntax`, and the tokenizer in `tokenizer`. So are a handful of
//! functions of the standard library, in `text` and `embedding`.

pub mod score;
pub mod text;
pub mod order;
pub mod syntax;
pub mod kinds;
pub mod indexer;
pub mod tokenizer;
pub mod search;
pub mod context;
pub mod context_laws;
pub mod llm;
pub mod ops;
pub mod storage;
pub mod bm25;
pub mod embedding;
pub mod server;
pub mod commands;
pub mod error;
pub mod telemetry;

//! Core of a natural-language-to-SQL middleware: an in-memory semantic index
//! over metric and dimension definitions, a Chinese-capable tokenizer with a
//! hot-loaded custom dictionary, an inference engine that turns a free-text
//! question into a logical query plan, and a lowerer that emits dialect-aware
//! SQL for that plan.
//!
//! Everything that decides or computes is verified here; reading the ontology
//! store, running the generated SQL and serving HTTP are left to the
//! surrounding application, which hands this crate plain values.

pub mod models;
pub mod text;
pub mod lowering;
pub mod inference;
pub mod tokenizer;
pub mod fst_engine;
pub mod router;
pub mod marshal;
pub mod reload;
pub mod ttl;
pub mod pipeline;

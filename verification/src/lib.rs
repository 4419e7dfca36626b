//! Core logic of a semantic reranking service: request validation, score
//! ranking, the evaluator slot pool and admission gate, the catalog
//! atomizer, and the embedding cache codec.

pub mod cache;
pub mod catalog;
pub mod config;
pub mod error;
pub mod handlers;
pub mod pool;
pub mod ranking;
pub mod tokenize;

//! An orchestration engine for language-model applications: prompt templates,
//! conversation memory, response caching, a brute-force vector store, a
//! single-shot chain and a bounded tool-using agent loop.

pub mod agent;
pub mod cache;
pub mod chain;
pub mod embedding;
pub mod llm;
pub mod memory;
pub mod prompt;
pub mod sambanova;
pub mod schema;
pub mod similarity;
pub mod strmap;
pub mod text;
pub mod vectorstore;

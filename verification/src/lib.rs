//! An in-memory engine for vector-space text retrieval.
//!
//! A corpus of documents is tokenized under a normalization rule, every
//! distinct term gets a column in order of first occurrence, and the engine
//! keeps per-document term counts and per-term document frequencies. From
//! these it fills a weight matrix, and it answers a query by weighting the
//! query over the same columns, scoring every document against it and
//! ranking the corpus by score, equal scores in corpus order. New documents
//! are queued and merged without renumbering a column.
//!
//! The arithmetic on weights and scores is not part of the engine: it is
//! handed in as two kernels. The engine decides when they are asked and what
//! is zero without asking, and it orders the scores they give.

pub mod document;
pub mod laws;
pub mod model;
pub mod normalize;
pub mod ranking;
pub mod scoring;
pub mod table;
pub mod terms;
pub mod tokenizer;

pub use document::Document;
pub use model::{IndexState, MergeOutcome, Model, ModelView};
pub use ranking::{ranked_order, score_key};
pub use scoring::zero_vector;
pub use table::TermTable;
pub use tokenizer::{split_words, tokenize, tokenize_normalized};

//! An in-memory trace collector: it stores batches of finished spans,
//! rebuilds the causal tree of a trace on demand, and decodes typed tags.
//! Beside it stand the decisions of the retry loop with which a caller waits
//! for spans to arrive, and the rules of the cart service that reports them.

pub mod cart;
pub mod collector;
pub mod grouping;
pub mod retry;
pub mod span;
pub mod span_tree;
pub mod store;
pub mod text;
pub mod wire;

//! The Earley parser, what holds of its chart, of its forest and of the
//! tree of the forest, its items as text, and a grammar to try it on.

pub mod complete;
pub mod forest;
pub mod leaves;
pub mod prs;
pub mod show;
pub mod sums;
pub mod tree;

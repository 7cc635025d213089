//! Ordered sets of integers kept as sorted, disjoint, non-adjacent closed
//! ranges, with the interval primitives they are built from.

pub mod interval;
pub mod ranges;
pub mod interval_set;
pub mod algebra;
pub mod queries;
pub mod laws;
pub mod text;
pub mod definitions;
pub mod render;
pub mod vocabulary;
pub mod transition;

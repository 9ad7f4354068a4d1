//! What the evaluator computes with.

pub mod class;
pub mod heap;
pub mod object;
pub mod scope;
pub mod types;
pub mod value;

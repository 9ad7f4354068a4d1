//! The tree-walking evaluator.

pub mod api;
pub mod arith;
pub mod budget;
pub mod building;
pub mod builtins;
pub mod call;
pub mod calling;
pub mod checking;
pub mod coerce;
pub mod declare;
pub mod declaring;
pub mod dict;
pub mod dispatch;
pub mod displaying;
pub mod equality;
pub mod error;
pub mod eval;
pub mod evaluating;
pub mod exec;
pub mod expressions;
pub mod files;
pub mod fit;
pub mod floats;
pub mod generic;
pub mod index;
pub mod keeping;
pub mod library;
pub mod methods;
pub mod module;
pub mod native;
pub mod nesting;
pub mod object;
pub mod operator;
pub mod operators;
pub mod ops;
pub mod paint;
pub mod params;
pub mod plain;
pub mod pretty;
pub mod show;
pub mod signs;
pub mod sound;
pub mod start;
pub mod state;
pub mod statements;
pub mod steady;

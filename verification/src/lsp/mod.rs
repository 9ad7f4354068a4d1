//! What an editor asks of a document: every answer is a function of its text.

pub mod actions;
pub mod codelens;
pub mod completion;
pub mod cursor;
pub mod describe;
pub mod diagnostics;
pub mod docs;
pub mod document;
pub mod folding;
pub mod format;
pub mod hints;
pub mod hover;
pub mod infer;
pub mod item;
pub mod knowing;
pub mod members;
pub mod names;
pub mod navigate;
pub mod offers;
pub mod outline;
pub mod places;
pub mod position;
pub mod receiver;
pub mod rows;
pub mod scope;
pub mod selection;
pub mod semantic;
pub mod server;
pub mod signature;
pub mod symbols;
pub mod views;
pub mod within;

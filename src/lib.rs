//! Flattens a set of source files into one text document, either as a
//! directory tree or as a full listing with each file's contents.

pub mod cli;
pub mod error;
pub mod ignore_handler;
pub mod output;
pub mod processor;
pub mod text;

pub use error::FlattenError;

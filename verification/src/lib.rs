//! A small store of issues and their comments: the index of identifiers,
//! its text format, and the decisions of the storage engine.

pub mod decimal;
pub mod text;
pub mod error;
pub mod record;
pub mod index;
pub mod format;
pub mod scan;
pub mod store;
pub mod history;
pub mod listing;

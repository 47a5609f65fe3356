//! The mutations of the knowledge base: what each of them checks, gathers and
//! writes.

pub mod assign;
pub mod blocks;
pub mod config;
pub mod edits;
pub mod handle;
pub mod inline;
pub mod links;
pub mod nested;
pub mod preview;
pub mod promote;
pub mod refactor;
pub mod referrers;
pub mod rename;
pub mod rename_type;
pub mod response;
pub mod riders;
pub mod script;
pub mod target;

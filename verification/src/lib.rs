//! The serving layer of a knowledge-graph engine.
//!
//! What a daemon answers, sends and writes is decided here, from a knowledge base that
//! is handed in as plain values. The socket, the disk, git and the parsers are outside.

pub mod ast;
pub mod channels;
pub mod codec;
pub mod commits;
pub mod config_read;
pub mod connection;
pub mod diagnostics;
pub mod edges;
pub mod encoding;
pub mod frames;
pub mod graph;
pub mod instances;
pub mod json;
pub mod laws;
pub mod listing;
pub mod model;
pub mod mutation;
pub mod navigation;
pub mod neighborhood;
pub mod paging;
pub mod paths;
pub mod records;
pub mod renaming;
pub mod render;
pub mod requests;
pub mod resolve;
pub mod saga;
pub mod socket;
pub mod sorting;
pub mod tally;
pub mod text;
pub mod text_map;
pub mod tokens;
pub mod typerefs;
pub mod union_find;
pub mod values;

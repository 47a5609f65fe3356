//! The reference graph and the type graph of a knowledge base.

pub mod delta;
pub mod hubs;
pub mod laws;
pub mod links;
pub mod nodes;
pub mod shape;
pub mod types;

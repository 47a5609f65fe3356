//! Reads and the subscription on what git recorded.

pub mod meta;
pub mod recent;

//! A mutation applied as one local saga over git working trees.

pub mod commit;
pub mod disk;
pub mod laws;
pub mod machine;
pub mod marker;
pub mod plan;
pub mod recovery;
pub mod trees;

//! What the operations are for, stated of their inputs and results.

pub mod answers;
pub mod channels;
pub mod commits;
pub mod counting;
pub mod edges;
pub mod gathers;
pub mod graph_shape;
pub mod instances;
pub mod json;
pub mod link_graph;
pub mod links;
pub mod listing;
pub mod mentions;
pub mod model;
pub mod moving;
pub mod mutations;
pub mod navigation;
pub mod neighborhood;
pub mod order;
pub mod paths;
pub mod precedence;
pub mod records;
pub mod refactors;
pub mod rendering;
pub mod sagas;
pub mod serving;
pub mod shapes;
pub mod text;
pub mod tokens;
pub mod type_graph;
pub mod type_nodes;
pub mod values;

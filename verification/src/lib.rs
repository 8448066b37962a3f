//! Atlas: deterministic repository intelligence.
pub mod text;
pub mod paths;
pub mod parse;
pub mod architecture;
pub mod flow;
pub mod snippets;
pub mod graph;
pub mod learn;
pub mod explain;
pub mod style;
pub mod store;
pub mod diagram;
pub mod progress;
pub mod scan;
pub mod extract;
pub mod color;
pub mod order;

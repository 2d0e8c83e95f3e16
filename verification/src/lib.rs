pub mod text;
pub mod paths;
pub mod resolver;
pub mod strset;
pub mod utf8;
pub mod policy;
pub mod spec;
pub mod order;
pub mod rules;
pub mod verdict;
pub mod glob;
pub mod jsontext;
pub mod graph;

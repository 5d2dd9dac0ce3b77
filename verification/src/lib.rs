//! Kenshi: the navigation, aggregation, ordering and labelling logic of a
//! terminal disk-usage browser, with its contracts proved by Verus.

pub mod anim;
pub mod app;
pub mod breakdown;
pub mod cache;
pub mod colors;
pub mod heuristics;
pub mod labels;
pub mod order;
pub mod text;
pub mod tree;

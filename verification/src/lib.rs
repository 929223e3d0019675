//! Cheatsheet index core: a deterministic shorthand-addressing scheme for
//! filesystem paths, a builder that turns directory listings into a sorted,
//! annotated tree of markdown documents, and a classifier that normalises
//! raw filesystem notifications into a small change model.

pub mod events;
pub mod laws;
pub mod model;
pub mod paths;
pub mod sorting;
pub mod text;
pub mod tree;

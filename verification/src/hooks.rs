//! State that a grid keeps between two renders.

pub mod pagination;

//! The pages of the tree.

pub mod leaf_page;
pub mod node;

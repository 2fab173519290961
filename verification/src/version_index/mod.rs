//! Version indexes that publish their newest version through an atomic head.

pub mod head_cell;
pub mod history_laws;
pub mod index_view;
pub mod skip_list;
pub mod v_weaver;
pub mod vanilla;
pub mod version_index;
pub mod version_tree;

//! Building blocks of the pages.

pub mod count;
pub mod csv;
pub mod interval;
pub mod laws;
pub mod shadow_vec;
pub mod text;

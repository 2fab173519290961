//! Transactions.

pub mod crud_api;
pub mod crud_operation;
pub mod crud_operation_result;
pub mod dispatch;
pub mod laws;
pub mod observations;
pub mod text_laws;

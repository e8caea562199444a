//! The rules of a shopping list kept by store and section: how a place in the
//! hierarchy is validated, how siblings are numbered, how the nested listing is
//! assembled and how a proposed categorization is applied.

pub mod auth;
pub mod config;
pub mod crypto;
pub mod db;
pub mod handler;
pub mod laws;
pub mod rank;
pub mod reorder;
pub mod store;
pub mod text;

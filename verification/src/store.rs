//! The rows of the shopping list: stores, their sections, and items.

pub mod item;
pub mod section;
pub mod shop;
pub mod table;
pub mod user;

//! Verified page-handling, layout-grouping and error-classification logic
//! for structured PDF extraction.

pub mod direction;
pub mod errors;
pub mod pages;
pub mod document;
pub mod objects;
pub mod structure;
pub mod layout;
pub mod boxes;
pub mod reading;
pub mod box_order;
pub mod text;
pub mod python;
pub mod arguments;
pub mod page_boxes;
pub mod families;
pub mod caches;
pub mod javascript;

pub use direction::{rotate_direction, TextDirection};

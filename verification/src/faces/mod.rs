//! The clock faces.

pub mod analog;
pub mod bars;
pub mod binary;
pub mod digital;
pub mod flip;
pub mod matrix;
pub mod roman;
pub mod snake;
pub mod word;

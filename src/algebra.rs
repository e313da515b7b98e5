pub mod matrix;
pub mod vector;

pub mod point;
pub mod quat;
pub mod vector;

pub mod vector;

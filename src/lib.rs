//! Dense matrices, flat vectors, and small fixed-size points, vectors and
//! quaternions over integer element types, with every operation checked
//! against its contract.

pub mod algebra;
pub mod calcul;
pub mod element;
pub mod error;
pub mod linspace;

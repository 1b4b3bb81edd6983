//! Verified core of a small linear-algebra toolkit.
//!
//! Every operation here is generic over the element type: the library
//! decides shapes, dimensions and indices, and which entries meet which,
//! while the scalar arithmetic is handed in by the caller.
pub mod error;
pub mod dims;
pub mod scalar;
pub mod table;
pub mod dynvec;
pub mod vector3;
pub mod matrix3;

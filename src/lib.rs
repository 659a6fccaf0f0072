//! Exact geometric primitives on integer coordinates: point ordering,
//! segment intersection and horizontal scanline intersection.

pub mod point;
pub mod scalar;
pub mod horizontal;
pub mod intersection;

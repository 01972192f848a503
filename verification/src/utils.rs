//! Small general-purpose containers.

pub mod array2d;

pub use array2d::Array2D;

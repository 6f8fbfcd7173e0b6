//! Verified building blocks for small OpenGL scenes: the index buffers of
//! procedurally generated meshes, the layout of records in a GPU buffer, and
//! the element layout of square matrices (transposition, row-major
//! flattening, the normal-matrix block).

pub mod buffer;
pub mod layout;
pub mod mesh;

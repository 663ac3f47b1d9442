//! A Game of Life sandbox: a sparse set of live cells on the integer lattice,
//! the Life rule that advances it, and the editing actions (paint, select,
//! copy, paste, pan, zoom, run toggle) that a pointer and keyboard drive.

pub mod cells;
pub mod clipboard;
pub mod editor;
pub mod laws;
pub mod life;
pub mod speed;

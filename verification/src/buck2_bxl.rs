//! Evaluation of bxl functions as computations of the engine.

pub mod calculation;

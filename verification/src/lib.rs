//! An evolutionary (gradient-free) optimizer over fixed-point numeric
//! parameter vectors, together with the two layer kinds it evolves:
//! a dense affine layer and a gated recurrent layer.
//!
//! Every scalar is a signed fixed-point number carrying `fixed::SCALE`
//! units per real unit, so that all arithmetic is exact integer
//! arithmetic and every contract can be stated and proved precisely.

pub mod fixed;
pub mod genetic_training;
pub mod neuralnetwork;

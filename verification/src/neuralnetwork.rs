pub mod activation;
pub mod layer;
pub mod linalgebra;
pub mod metrics;

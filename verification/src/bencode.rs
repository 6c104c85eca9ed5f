pub mod decoder;
pub mod encoder;
pub mod errors;
pub mod laws;
pub mod model;

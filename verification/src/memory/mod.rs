//! Memory in layers: what the user and the project want every session to know.

pub mod layers;
pub mod writer;

pub use layers::load;

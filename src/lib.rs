//! Inference of the lanes of a road from its OpenStreetMap tags, and the
//! catalogue of transformations that clean up a street network.

pub mod tags;
pub mod text;
pub mod lane;
pub mod inference;
pub mod classic;
pub mod transform;
pub mod laws;

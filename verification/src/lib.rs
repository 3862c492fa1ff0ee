//! Shapes, storage layout and dispatch planning for a dense feed-forward
//! neural network whose forward pass runs on the GPU.
//!
//! Every container is generic over the stored element type, so the layout
//! rules proved here hold whatever number format the caller stores.

pub mod flat;
pub mod forward_propagation;
pub mod matrix;
pub mod layer;
pub mod network;
pub mod weight_bias_matrix;

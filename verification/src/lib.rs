//! The scene graph of a GPU-drawn user interface.
//!
//! A [`scene::Scene`] takes primitives in painting order and gives each a draw order. Filtered
//! layers claim ranges of orders for themselves. Once finished, a scene is handed to the renderer
//! in batches. The modules whose names end in `_laws` hold what is true of the library as a whole.

pub mod arithmetic_laws;
pub mod atlas;
pub mod batch;
pub mod batch_laws;
pub mod bounds_tree;
pub mod chain;
pub mod color;
pub mod compositing_laws;
pub mod decimal;
pub mod drawing_laws;
pub mod filter;
pub mod filter_laws;
pub mod finish_laws;
pub mod fixed;
pub mod frame_laws;
pub mod geometry;
pub mod geometry_laws;
pub mod label_laws;
pub mod layer_laws;
pub mod matrix_laws;
pub mod number_laws;
pub mod outline_laws;
pub mod painting_laws;
pub mod path;
pub mod path_laws;
pub mod platform;
pub mod platform_laws;
pub mod primitive;
pub mod primitive_laws;
pub mod replay_laws;
pub mod scalar;
pub mod scene;
pub mod scene_laws;
pub mod sort;
pub mod step_laws;
pub mod transform;
pub mod tree_laws;
pub mod whole;

//! Verified game rules for a top-down zombie shooter: the streamed tile world,
//! chunk generation, the wave director, ammunition bookkeeping, limb severing
//! and the menu flow. Rendering, input and all continuous (floating-point)
//! motion live in the application around this library.

pub mod grid;
pub mod props;
pub mod scene;
pub mod rng;
pub mod chunkgen;
pub mod world;
pub mod waves;
pub mod arsenal;
pub mod limbs;
pub mod flow;

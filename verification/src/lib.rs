//! Verified core of the pixel contribution toolkit: building scenes from CAD structures,
//! assembling geometry pages for the rasterizer, integer quantization helpers, frame encoding,
//! and the small value types shared by the rendering front ends.
use vstd::prelude::*;

pub mod graphics;
pub mod integer;
pub mod math;
pub mod options;
pub mod positions;
pub mod progress;
pub mod quantization;
pub mod render;
pub mod scene;
pub mod simple;
pub mod spatial;
pub mod text;
pub mod utils;

pub use render::{Frame, Histogram, RenderOptions, RenderStats};
pub use scene::{Geometry, Instance, Scene, SceneStats, Triangle};
pub use utils::clamp;

verus! {

} // verus!

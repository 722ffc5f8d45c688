//! A 2D raster compositing engine.
//!
//! A [`Scene`] owns an RGBA output raster and a set of image layers
//! ([`ImageSprite`]). Rendering puts the layers in z-order, fills the raster
//! with the background color, and paints each layer over what the layers
//! before it have left, with straight-alpha "over" compositing.
//!
//! The library computes in whole numbers only. Where a layer shows on the
//! target reaches it as a [`SampleMap`]: for each target pixel, the layer
//! pixel that lies below it. Such a map is what is left of an affine
//! transform once every target pixel has been mapped back through its inverse
//! and cut down to a pixel index; whoever holds the transform computes it.

pub mod buffer;
pub mod format;
pub mod pixel;
pub mod random;
pub mod samples;
pub mod scene;
pub mod sprite;
pub mod wasm;

pub use buffer::SharedBuffer;
pub use format::ImageFormat;
pub use pixel::Rgba;
pub use samples::SampleMap;
pub use scene::Scene;
pub use sprite::ImageSprite;
pub use wasm::WasmScene;

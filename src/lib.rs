//! A CPU rasterizer that draws triangles, flat-coloured or texture-mapped,
//! onto a row-major RGBA byte buffer with alpha compositing.

pub mod back_end;
pub mod batch;
pub mod mapping;
pub mod primitives;
pub mod scan;
pub mod texture;

pub use back_end::{RasterError, RgbaBufferGraphics, SurfaceView};
pub use mapping::{PixelSource, TextureMapping};
pub use primitives::{BufferPoint, TextureTriangle, Triangle};
pub use texture::{RgbaTexture, TextureView};

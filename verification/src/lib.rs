//! Avatar render-and-cache pipeline.
//!
//! The library renders a small avatar raster (the face region of a skin
//! texture, optionally with a helm overlay), resizes it on demand, and
//! prepares a compact cached form of the base render.  The modules are:
//! identity handling and cache keys, raster cropping/compositing/resizing,
//! PNG encoding and decoding, the header-stripping compact codec, the texture
//! descriptor decoding, and the request pipeline that sequences them.
#![allow(unused_imports)]

pub mod bytes;
pub mod cache;
pub mod img;
pub mod mojang;
pub mod pipeline;
pub mod types;

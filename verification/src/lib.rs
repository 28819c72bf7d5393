//! A bounded, prefetching cache of decoded image and animation frames.
//!
//! The cache keeps a sliding window of the images of one directory resident
//! as tiled textures, within a fixed byte budget. It never touches a file,
//! a worker thread or a graphics device itself: decode requests are queued
//! for the caller to hand to its decode backend, decode results are handed
//! in by the caller, and textures are created through a [`image_cache::texture::Gpu`]
//! that the caller supplies.

pub mod image_cache;
pub mod window;

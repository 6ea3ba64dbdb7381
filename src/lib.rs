//! The asset-import core of a small 3D engine: archive reading (with its
//! name cipher and LZSS decompression), decoding of the legacy geometry,
//! texture-list and texture formats, triangle assembly, hand patches, surface
//! merging, the model cache, and integer vector and matrix arithmetic.
//! Floating-point values that pass through unchanged are held as their
//! IEEE-754 bit patterns.
use vstd::prelude::*;

pub mod math;
pub mod read;
pub mod model;
pub mod surface;
pub mod geo;
pub mod texlist;
pub mod import;
pub mod patch;
pub mod cipher;
pub mod lzss;
pub mod big;
pub mod lif;
pub mod importer;
pub mod cache;
pub mod input;
pub mod engine;

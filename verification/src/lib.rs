//! Antialiased rendering buffers.
//!
//! Two sample-accumulation buffers with exact integer averaging semantics —
//! a full-scene supersampling buffer ([`fsaa::FSAABuffer`]) and a per-pixel
//! multisampling buffer ([`msaa::MultisampleBuffer`]) — together with the
//! generator of canonical sub-pixel sample positions ([`sample`]) and a
//! circle rasterizer built on top of them ([`circle`]).

pub mod circle;
pub mod color;
pub mod fsaa;
pub mod msaa;
pub mod raster;
pub mod sample;

use vstd::prelude::*;

verus! {

/// Errors raised when a buffer is constructed with invalid parameters.
#[derive(Clone, Copy, PartialEq, Eq, Structural, Debug)]
pub enum RenderError {
    /// A width, height, scale factor or sample count of zero.
    InvalidDimension,
}

} // verus!

//! Descriptions for device and swapchain creation, plus small geometry
//! helper types.

use vstd::prelude::*;

verus! {

/// Very high level abstraction for device creation.
pub struct DeviceDescription {
    pub use_compute_queue: bool,
    pub use_transfer_queue: bool,
    pub ray_tracing: bool,
}

/// High level swapchain description.
#[derive(Clone)]
pub struct SwapchainDescription {
    pub image_count: u32,
    pub width: u32,
    pub height: u32,
}

/// A three-dimensional extent in pixels.
#[derive(Clone, Copy)]
pub struct Extent3D {
    pub width: u32,
    pub height: u32,
    pub depth: u32,
}

/// A two-dimensional extent in pixels.
#[derive(Clone, Copy)]
pub struct Extent2D {
    pub width: u32,
    pub height: u32,
}

/// A three-dimensional signed offset.
#[derive(Clone, Copy)]
pub struct Offset3D {
    pub x: i32,
    pub y: i32,
    pub z: i32,
}

/// A two-dimensional signed offset.
#[derive(Clone, Copy)]
pub struct Offset2D {
    pub x: i32,
    pub y: i32,
}

} // verus!

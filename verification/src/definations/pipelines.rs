//! Descriptions of descriptor writes, vertex input and pipeline state.

use vstd::prelude::*;

use crate::definations::gpu_resources::{CompareOp, Format};
use crate::gpu_resources::{BufferID, ImageViewID, SamplerID};

verus! {

/// Binds a buffer region to one slot of the bindless descriptor set.
pub struct BufferWriteInfo {
    pub buffer: BufferID,
    pub offset: u64,
    pub range: u64,
    pub index: u32,
}

impl Default for BufferWriteInfo {
    /// An empty write naming no buffer.
    fn default() -> (r: Self)
        ensures
            r.buffer.is_null(),
            r.offset == 0 && r.range == 0 && r.index == 0,
    {
        BufferWriteInfo { buffer: BufferID::null(), offset: 0, range: 0, index: 0 }
    }
}

/// How an image is bound to a descriptor slot.
pub enum ImageDescriptorType {
    SampledImage,
    StorageImage,
}

/// Binds an image view to one slot of the bindless descriptor set.
pub struct ImageWriteInfo {
    pub view: ImageViewID,
    pub image_descriptor_type: ImageDescriptorType,
    pub index: u32,
}

impl Default for ImageWriteInfo {
    /// An empty sampled-image write naming no view.
    fn default() -> (r: Self)
        ensures
            r.view.is_null(),
            r.image_descriptor_type is SampledImage,
            r.index == 0,
    {
        ImageWriteInfo {
            view: ImageViewID::null(),
            image_descriptor_type: ImageDescriptorType::SampledImage,
            index: 0,
        }
    }
}

/// Binds a sampler to one slot of the bindless descriptor set.
pub struct SamplerWriteInfo {
    pub sampler: SamplerID,
    pub index: u32,
}

impl Default for SamplerWriteInfo {
    /// An empty write naming no sampler.
    fn default() -> (r: Self)
        ensures
            r.sampler.is_null(),
            r.index == 0,
    {
        SamplerWriteInfo { sampler: SamplerID::null(), index: 0 }
    }
}

/// Whether vertex attributes advance per vertex or per instance.
#[derive(Clone, Copy, Debug)]
pub enum VertexInputRate {
    Vertex,
    Instance,
}

/// One vertex buffer binding.
#[derive(Clone, Copy, Debug)]
pub struct VertexBinding {
    pub binding: u32,
    pub stride: u32,
    pub input_rate: VertexInputRate,
}

/// One vertex attribute within a binding.
#[derive(Clone, Copy)]
pub struct VertexAttribute {
    pub location: u32,
    pub binding: u32,
    pub format: Format,
    pub offset: u32,
}

/// Which faces are culled during rasterization.
#[derive(Clone, Copy)]
pub enum CullMode {
    NoCulling,
    Front,
    Back,
    FrontAndBack,
}

/// Which winding order counts as front-facing.
#[derive(Clone, Copy)]
pub enum FrontFace {
    Clockwise,
    CounterClockwise,
}

/// How polygons are rasterized.
#[derive(Clone, Copy)]
pub enum PolygonMode {
    Fill,
    Line,
    Point,
}

/// Depth and stencil test configuration.
#[derive(Clone, Copy)]
pub struct DepthStencilOptions {
    pub depth_test_enable: bool,
    pub depth_write_enable: bool,
    pub depth_compare_op: CompareOp,
    pub stencil_test_enable: bool,
}

impl Default for DepthStencilOptions {
    /// Depth testing and writing on, closer-wins, stencil off.
    fn default() -> (r: Self)
        ensures
            r.depth_test_enable && r.depth_write_enable,
            r.depth_compare_op is Less,
            !r.stencil_test_enable,
    {
        Self {
            depth_test_enable: true,
            depth_write_enable: true,
            depth_compare_op: CompareOp::Less,
            stencil_test_enable: false,
        }
    }
}

/// Attachment formats a pipeline renders into.
#[derive(Clone)]
pub struct PipelineOutputs {
    pub color: Vec<Format>,
    pub depth: Option<Format>,
    pub stencil: Option<Format>,
}

impl Default for PipelineOutputs {
    /// One high-precision color attachment, no depth and no stencil.
    fn default() -> (r: Self)
        ensures
            r.color@.len() == 1 && r.color@[0] is Rgba16Float,
            r.depth is None && r.stencil is None,
    {
        let mut color: Vec<Format> = Vec::new();
        color.push(Format::Rgba16Float);
        PipelineOutputs { color, depth: None, stencil: None }
    }
}

/// Kind of geometry a ray-tracing hit group intersects.
#[derive(Clone, Copy, PartialEq)]
pub enum HitGroupType {
    Triangle,
    Procedural,
}

/// Shaders making up one ray-tracing hit group.
#[derive(Clone, Copy)]
pub struct HitGroupDescription {
    pub any_hit: &'static str,
    pub closet_hit: &'static str,
    pub intersection: &'static str,
    pub hit_grp_type: HitGroupType,
}

} // verus!

//! Descriptions used while recording and submitting command buffers.

use vstd::prelude::*;

use crate::definations::gpu_resources::{ImageAspect, ImageLayout};
use crate::gpu_resources::{BufferID, ImageID};

verus! {

/// Which hardware queue a piece of work targets.
#[derive(Clone, Copy, PartialEq)]
pub enum QueueType {
    Graphics,
    Transfer,
    Compute,
    Ignored,
}

/// Level of a command buffer.
pub enum CommandBufferLevel {
    Primary,
    Secondary,
}

/// How a command buffer will be (re)used.
pub enum CommandBufferUsage {
    OneTimeSubmit,
    RenderPassContinue,
    SimultaneousUse,
}

/// Width of the indices in an index buffer.
pub enum IndexType {
    Uint32,
    Uint16,
}

/// The window region rendering is restricted to.
#[derive(Clone, Copy)]
pub struct RenderArea {
    pub offset: u32,
    pub width: u32,
    pub height: u32,
}

/// What happens to an attachment when rendering begins.
#[derive(Copy, Clone, PartialEq)]
pub enum LoadOp {
    Load,
    Clear,
    DontCare,
}

/// What happens to an attachment when rendering ends.
#[derive(Copy, Clone, PartialEq)]
pub enum StoreOp {
    Store,
    DontCare,
    NoStore,
}

/// How a multisampled attachment is resolved.
#[derive(Copy, Clone, Debug, Eq, PartialEq)]
pub enum ResolveMode {
    NoResolve,
    SampleZero,
    Average,
    Min,
    Max,
}

/// Flags controlling a dynamic rendering pass.
#[derive(Copy, Clone, PartialEq)]
pub enum RenderingFlags {
    Empty,
    ContentsSecondaryCommandBuffers,
    Suspending,
    Resuming,
}

/// A copy between two buffer regions.
pub struct BufferCopyInfo {
    pub src_buffer: BufferID,
    pub dst_buffer: BufferID,
    pub src_offset: u64,
    pub dst_offset: u64,
    pub size: u64,
}

/// Pipeline stage a barrier waits on or unblocks.
#[derive(Clone, Copy, Debug)]
pub enum PipelineStage {
    TopOfPipe,
    BottomOfPipe,
    VertexShader,
    FragmentShader,
    ComputeShader,
    ColorAttachmentOutput,
    Transfer,
    AllCommands,
}

/// Kind of memory access a barrier orders.
#[derive(Clone, Copy, Debug)]
pub enum AccessType {
    NoAccess,
    Indirect,
    IndexRead,
    VertexRead,
    UniformRead,
    ShaderRead,
    ShaderWrite,
    ColorAttachmentRead,
    ColorAttachmentWrite,
    DepthStencilRead,
    DepthStencilWrite,
    TransferRead,
    TransferWrite,
}

/// A global execution and memory barrier.
#[derive(Clone)]
pub struct MemoryBarrier {
    pub src_stage: PipelineStage,
    pub dst_stage: PipelineStage,
    pub src_access: AccessType,
    pub dst_access: AccessType,
}

impl Default for MemoryBarrier {
    /// Orders everything: from the top of the pipe to the bottom.
    fn default() -> (r: Self)
        ensures
            r.src_stage is TopOfPipe && r.dst_stage is BottomOfPipe,
            r.src_access is ColorAttachmentRead && r.dst_access is ColorAttachmentRead,
    {
        MemoryBarrier {
            src_stage: PipelineStage::TopOfPipe,
            dst_stage: PipelineStage::BottomOfPipe,
            src_access: AccessType::ColorAttachmentRead,
            dst_access: AccessType::ColorAttachmentRead,
        }
    }
}

/// A barrier over one image subresource range, optionally changing its
/// layout or owning queue.
#[derive(Clone)]
pub struct ImageBarrier {
    pub image: ImageID,
    pub aspect: ImageAspect,
    pub old_layout: ImageLayout,
    pub new_layout: ImageLayout,
    pub src_stage: PipelineStage,
    pub dst_stage: PipelineStage,
    pub src_access: AccessType,
    pub dst_access: AccessType,
    pub src_queue: QueueType,
    pub dst_queue: QueueType,
    pub base_mip: u32,
    pub level_count: u32,
    pub base_layer: u32,
    pub layer_count: u32,
}

impl Default for ImageBarrier {
    /// A whole-pipe barrier over the first mip level and layer of the color
    /// aspect of no image in particular.
    fn default() -> (r: Self)
        ensures
            r.image.is_null(),
            r.aspect is Color,
            r.old_layout is Undefined && r.new_layout is Undefined,
            r.src_stage is TopOfPipe && r.dst_stage is BottomOfPipe,
            r.src_access is ColorAttachmentRead && r.dst_access is ColorAttachmentRead,
            r.src_queue is Ignored && r.dst_queue is Ignored,
            r.base_mip == 0 && r.level_count == 1,
            r.base_layer == 0 && r.layer_count == 1,
    {
        ImageBarrier {
            image: ImageID::null(),
            aspect: ImageAspect::Color,
            old_layout: ImageLayout::Undefined,
            new_layout: ImageLayout::Undefined,
            src_stage: PipelineStage::TopOfPipe,
            dst_stage: PipelineStage::BottomOfPipe,
            src_access: AccessType::ColorAttachmentRead,
            dst_access: AccessType::ColorAttachmentRead,
            src_queue: QueueType::Ignored,
            dst_queue: QueueType::Ignored,
            base_mip: 0,
            level_count: 1,
            base_layer: 0,
            layer_count: 1,
        }
    }
}

/// A barrier over one buffer region, optionally changing its owning queue.
#[derive(Clone)]
pub struct BufferBarrier {
    pub buffer: BufferID,
    pub src_stage: PipelineStage,
    pub dst_stage: PipelineStage,
    pub src_access: AccessType,
    pub dst_access: AccessType,
    pub src_queue: QueueType,
    pub dst_queue: QueueType,
    pub offset: u64,
    pub size: u64,
}

impl Default for BufferBarrier {
    /// A whole-pipe barrier over an empty region of no buffer in particular.
    fn default() -> (r: Self)
        ensures
            r.buffer.is_null(),
            r.src_stage is TopOfPipe && r.dst_stage is BottomOfPipe,
            r.src_access is ColorAttachmentRead && r.dst_access is ColorAttachmentRead,
            r.src_queue is Ignored && r.dst_queue is Ignored,
            r.offset == 0 && r.size == 0,
    {
        BufferBarrier {
            buffer: BufferID::null(),
            src_stage: PipelineStage::TopOfPipe,
            dst_stage: PipelineStage::BottomOfPipe,
            src_access: AccessType::ColorAttachmentRead,
            dst_access: AccessType::ColorAttachmentRead,
            src_queue: QueueType::Ignored,
            dst_queue: QueueType::Ignored,
            offset: 0,
            size: 0,
        }
    }
}

/// Any of the three barrier kinds.
#[derive(Clone)]
pub enum Barrier {
    Memory(MemoryBarrier),
    Image(ImageBarrier),
    Buffer(BufferBarrier),
}

} // verus!

use vulcany::definations::commands::{BufferBarrier, ImageBarrier, MemoryBarrier, PipelineStage};
use vulcany::definations::gpu_resources::{ImageDescription, ImageViewDescription};
use vulcany::definations::pipelines::{
    BufferWriteInfo, DepthStencilOptions, ImageWriteInfo, PipelineOutputs, SamplerWriteInfo,
};
use vulcany::gpu_resources::{BufferID, ImageID, ImageViewID, SamplerID};
use vulcany::taskgraph::definations::PassResource;
use vulcany::taskgraph::task_graph::TaskGraph;

#[test]
fn null_ids_are_equal_and_hash_alike() {
    assert_eq!(BufferID::null(), BufferID::null());
    assert_eq!(ImageID::null(), ImageID::null());
    assert_eq!(SamplerID::null(), SamplerID::null());
    assert_eq!(ImageViewID::null(), ImageViewID::null());
}

#[test]
fn registered_slots_are_numbered_in_order() {
    let mut tg = TaskGraph::new();
    assert_eq!(tg.use_image(ImageID::null()).0, 0);
    assert_eq!(tg.use_image(ImageID::null()).0, 1);
    assert_eq!(tg.use_buffer(BufferID::null()).0, 0);
    assert_eq!(tg.use_buffer(BufferID::null()).0, 1);
    assert_eq!(tg.use_image_view(ImageViewID::null()).0, 0);
    assert_eq!(tg.use_image(ImageID::null()).0, 2);
}

#[test]
fn pass_resource_default_names_nothing() {
    let r = PassResource::default();
    assert!(r.buffer.is_none());
    assert!(r.image.is_none());
    assert!(r.image_view.is_none());
    assert!(r.sampler.is_none());
}

#[test]
fn descriptor_defaults() {
    let img = ImageDescription::default();
    assert_eq!((img.width, img.height, img.depth), (1, 1, 1));
    assert_eq!((img.mip_levels, img.array_layers), (1, 1));
    let view = ImageViewDescription::default();
    assert_eq!((view.base_mip_level, view.level_count), (0, 1));
    assert_eq!((view.base_array_layer, view.layer_count), (0, 1));
    let buf_write = BufferWriteInfo::default();
    assert_eq!(buf_write.buffer, BufferID::null());
    assert_eq!((buf_write.offset, buf_write.range, buf_write.index), (0, 0, 0));
    let img_write = ImageWriteInfo::default();
    assert_eq!(img_write.view, ImageViewID::null());
    let smp_write = SamplerWriteInfo::default();
    assert_eq!(smp_write.sampler, SamplerID::null());
    let ds = DepthStencilOptions::default();
    assert!(ds.depth_test_enable && ds.depth_write_enable && !ds.stencil_test_enable);
    let outputs = PipelineOutputs::default();
    assert_eq!(outputs.color.len(), 1);
    assert!(outputs.depth.is_none() && outputs.stencil.is_none());
}

#[test]
fn barrier_defaults_span_the_whole_pipe() {
    let m = MemoryBarrier::default();
    assert!(matches!(m.src_stage, PipelineStage::TopOfPipe));
    assert!(matches!(m.dst_stage, PipelineStage::BottomOfPipe));
    let i = ImageBarrier::default();
    assert_eq!(i.image, ImageID::null());
    assert_eq!((i.base_mip, i.level_count, i.base_layer, i.layer_count), (0, 1, 0, 1));
    let b = BufferBarrier::default();
    assert_eq!(b.buffer, BufferID::null());
    assert_eq!((b.offset, b.size), (0, 0));
}

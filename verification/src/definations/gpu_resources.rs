//! Descriptions of buffers, images, image views, samplers and textures.

use vstd::prelude::*;

verus! {

/// Desired properties for a memory allocation, chosen by the external
/// allocator.
#[derive(Clone, Copy, Debug, PartialEq, Eq)]
pub enum MemoryType {
    /// Memory that resides on the device; typically the fastest for the GPU
    /// to access, often inaccessible to the CPU.
    DeviceLocal,
    /// Memory that prefers properties making it efficiently accessible by
    /// the host, while still allowing the device to use it.
    PreferHost,
    /// Lets the allocator select the most appropriate memory type from the
    /// resource's usage flags.
    Auto,
}

/// Dimensionality of an image.
#[derive(Clone, Copy, Debug)]
pub enum ImageType {
    Type1D,
    Type2D,
    Type3D,
}

/// How an image will be used.
#[derive(Clone)]
pub enum ImageUsage {
    TransferSrc,
    TransferDst,
    Sampled,
    Storage,
    ColorAttachment,
    DepthStencilAttachment,
}

/// Texel format of an image or vertex attribute.
#[derive(Clone, Copy)]
pub enum Format {
    Rgba8Unorm,
    Bgra8Unorm,
    Rgb565Unorm,
    Rgba8Uint,
    Rgba32Sint,
    Rgba16Float,
    Rg32Float,
    Rgb32Float,
    Rgba32Float,
    R32Float,
    D32Float,
    D24UnormS8Uint,
    D16Unorm,
    BC1RgbaUnorm,
    BC7Unorm,
}

/// Sample count for multisampled images.
pub enum SampleCount {
    Type1,
    Type2,
    Type4,
    Type8,
    Type16,
    Type32,
    Type64,
}

/// Layout an image is kept in while it is being accessed.
#[derive(Copy, Clone, PartialEq)]
pub enum ImageLayout {
    Undefined,
    General,
    ColorAttachment,
    DepthStencilAttachment,
    DepthStencilReadOnly,
    ShaderReadOnly,
    TransferSrc,
    TransferDst,
    PresentSrc,
}

/// Everything needed to create an image.
pub struct ImageDescription {
    pub usage: ImageUsage,
    pub format: Format,
    pub image_type: ImageType,
    pub height: u32,
    pub width: u32,
    pub depth: u32,
    pub memory_type: MemoryType,
    pub mip_levels: u32,
    pub array_layers: u32,
    pub samples: SampleCount,
}

impl Default for ImageDescription {
    /// A one-texel sampled 2D image.
    fn default() -> (r: Self)
        ensures
            r.height == 1 && r.width == 1 && r.depth == 1,
            r.mip_levels == 1 && r.array_layers == 1,
            r.usage is Sampled && r.format is Rgba16Float && r.image_type is Type2D,
            r.memory_type is Auto && r.samples is Type1,
    {
        Self {
            usage: ImageUsage::Sampled,
            format: Format::Rgba16Float,
            image_type: ImageType::Type2D,
            height: 1,
            width: 1,
            depth: 1,
            memory_type: MemoryType::Auto,
            mip_levels: 1,
            array_layers: 1,
            samples: SampleCount::Type1,
        }
    }
}

/// A contiguous range of mip level and array layers of one image aspect.
#[derive(Clone, Copy)]
pub struct ImageSubresourceLayers {
    pub aspect: ImageAspect,
    pub mip_level: u32,
    pub level_count: u32,
    pub base_array_layer: u32,
    pub layer_count: u32,
}

/// Dimensionality of an image view.
#[derive(Clone, Copy)]
pub enum ImageViewType {
    Type1D,
    Type2D,
    Type3D,
    Cube,
    Type1DArray,
    Type2DArray,
    CubeArray,
}

/// Which aspect of an image a view or barrier refers to.
#[derive(Clone, Copy)]
pub enum ImageAspect {
    Color,
    Depth,
    Stencil,
    DepthStencil,
}

/// Everything needed to create an image view.
pub struct ImageViewDescription {
    pub view_type: ImageViewType,
    pub aspect: ImageAspect,
    pub base_mip_level: u32,
    pub level_count: u32,
    pub base_array_layer: u32,
    pub layer_count: u32,
}

impl Default for ImageViewDescription {
    /// A single-level, single-layer 2D color view.
    fn default() -> (r: Self)
        ensures
            r.view_type is Type2D && r.aspect is Color,
            r.base_mip_level == 0 && r.level_count == 1,
            r.base_array_layer == 0 && r.layer_count == 1,
    {
        Self {
            view_type: ImageViewType::Type2D,
            aspect: ImageAspect::Color,
            base_mip_level: 0,
            level_count: 1,
            base_array_layer: 0,
            layer_count: 1,
        }
    }
}

/// Texel filtering mode.
#[derive(Clone, Copy, Debug)]
pub enum Filter {
    Nearest,
    Linear,
}

/// Mipmap filter mode.
#[derive(Clone, Copy, Debug)]
pub enum SamplerMipmapMode {
    Nearest,
    Linear,
}

/// Addressing (wrap/clamp) mode.
#[derive(Clone, Copy, Debug)]
pub enum SamplerAddressMode {
    Repeat,
    MirroredRepeat,
    ClampToEdge,
    ClampToBorder,
}

/// Border colors for [`SamplerAddressMode::ClampToBorder`].
#[derive(Clone, Copy, Debug)]
pub enum BorderColor {
    FloatTransparentBlack,
    IntTransparentBlack,
    FloatOpaqueBlack,
    IntOpaqueBlack,
    FloatOpaqueWhite,
    IntOpaqueWhite,
}

/// Comparison operator for depth samplers and depth tests.
#[derive(Clone, Copy, Debug)]
pub enum CompareOp {
    Never,
    Less,
    Equal,
    LessOrEqual,
    Greater,
    NotEqual,
    GreaterOrEqual,
    Always,
}

/// Everything needed to load a texture from a file path.
pub struct TextureDescription {
    pub filter: Filter,
    pub wrap: SamplerAddressMode,
    pub path: &'static str,
    pub generate_mips: bool,
}

impl Default for TextureDescription {
    /// Linear filtering, repeat wrapping and generated mip levels.
    fn default() -> (r: Self)
        ensures
            r.filter is Linear && r.wrap is Repeat && r.generate_mips,
            r.path@ == " "@,
    {
        Self {
            filter: Filter::Linear,
            wrap: SamplerAddressMode::Repeat,
            path: " ",
            generate_mips: true,
        }
    }
}

} // verus!

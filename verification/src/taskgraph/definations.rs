//! Task declarations: which resources a task touches, and how.

use vstd::prelude::*;

use crate::definations::gpu_resources::ImageLayout;
use crate::gpu_resources::{BufferID, ImageID, ImageViewID, SamplerID};

verus! {

/// How a task uses one resource.
#[derive(Clone, Copy, PartialEq)]
pub enum TaskAccess {
    Read,
    Write,
    ReadWrite,
}

/// Index of an image slot registered with a task graph.
#[derive(Clone, Copy, Debug, PartialEq, Eq, Hash, Structural)]
pub struct TaskImageId(pub usize);

/// Index of a buffer slot registered with a task graph.
#[derive(Clone, Copy, Debug, PartialEq, Eq, Hash, Structural)]
pub struct TaskBufferId(pub usize);

/// Index of an image-view slot registered with a task graph.
#[derive(Clone, Copy, Debug, PartialEq, Eq, Hash, Structural)]
pub struct TaskImageViewId(pub usize);

/// One declared access to an image, with the layout it expects.
#[derive(Clone, Copy, PartialEq)]
pub struct TaskImageAccess {
    pub id: TaskImageId,
    pub layout: ImageLayout,
    pub access: TaskAccess,
}

/// One declared access to a buffer.
#[derive(Clone, Copy, PartialEq)]
pub struct TaskBufferAccess {
    pub id: TaskBufferId,
    pub access: TaskAccess,
}

/// One declared access to an image view.
#[derive(Clone, Copy, PartialEq)]
pub struct TaskImageViewAccess {
    pub id: TaskImageViewId,
    pub access: TaskAccess,
}

/// One declared resource access of a task.
#[derive(Clone, Copy, PartialEq)]
pub enum TaskResource {
    Image(TaskImageAccess),
    Buffer(TaskBufferAccess),
    ImageView(TaskImageViewAccess),
}

impl TaskResource {
    /// The two declarations name one and the same resource: the same slot
    /// of the same kind.
    pub open spec fn same_resource_spec(a: TaskResource, b: TaskResource) -> bool {
        match (a, b) {
            (TaskResource::Image(x), TaskResource::Image(y)) => x.id == y.id,
            (TaskResource::Buffer(x), TaskResource::Buffer(y)) => x.id == y.id,
            (TaskResource::ImageView(x), TaskResource::ImageView(y)) => x.id == y.id,
            _ => false,
        }
    }

    /// Decides [`Self::same_resource_spec`].
    pub fn same_resource(a: &TaskResource, b: &TaskResource) -> (r: bool)
        ensures
            r == TaskResource::same_resource_spec(*a, *b),
    {
        match (a, b) {
            (TaskResource::Image(x), TaskResource::Image(y)) => x.id.0 == y.id.0,
            (TaskResource::Buffer(x), TaskResource::Buffer(y)) => x.id.0 == y.id.0,
            (TaskResource::ImageView(x), TaskResource::ImageView(y)) => x.id.0 == y.id.0,
            _ => false,
        }
    }

    /// The access mode of the declaration.
    pub open spec fn access_spec(self) -> TaskAccess {
        match self {
            TaskResource::Image(img) => img.access,
            TaskResource::Buffer(buffer) => buffer.access,
            TaskResource::ImageView(img_view) => img_view.access,
        }
    }

    /// Returns [`Self::access_spec`].
    pub fn get_access(&self) -> (r: TaskAccess)
        ensures
            r == self.access_spec(),
    {
        match self {
            TaskResource::Image(img) => img.access,
            TaskResource::Buffer(buffer) => buffer.access,
            TaskResource::ImageView(img_view) => img_view.access,
        }
    }

    /// The two declarations form a hazard: they name the same resource and
    /// at least one of them writes.
    pub open spec fn conflicts_spec(a: TaskResource, b: TaskResource) -> bool {
        TaskResource::same_resource_spec(a, b) && !(a.access_spec() is Read && b.access_spec()
            is Read)
    }
}

/// A unit of declared work: the ordered list of resource accesses the task
/// performs.  The recording callback that eventually issues the work lives
/// with the external recording layer and plays no part in scheduling.
pub struct Task {
    pub resources: Vec<TaskResource>,
}

impl View for Task {
    type V = Seq<TaskResource>;

    open spec fn view(&self) -> Seq<TaskResource> {
        self.resources@
    }
}

/// Kind of work a pass performs.
pub enum PassType {
    Graphic,
    Compute,
    Transfer,
}

/// How a pass accesses one resource.
#[derive(PartialEq, Clone, Copy)]
pub enum ResourceAcess {
    Write,
    Read,
    ReadAndWrite,
}

/// One resource named by a pass, in whichever of the four slots applies.
pub struct PassResource {
    pub buffer: Option<BufferID>,
    pub image: Option<ImageID>,
    pub image_view: Option<ImageViewID>,
    pub sampler: Option<SamplerID>,
    pub acess: ResourceAcess,
}

impl Default for PassResource {
    /// Names no resource at all, for writing.
    fn default() -> (r: Self)
        ensures
            r.buffer is None && r.image is None && r.image_view is None && r.sampler is None,
            r.acess is Write,
    {
        PassResource {
            buffer: None,
            image: None,
            image_view: None,
            sampler: None,
            acess: ResourceAcess::Write,
        }
    }
}

} // verus!

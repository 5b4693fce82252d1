//! The primitive store: every drawable of a scene, addressed by index.
//!
//! Primitives are only ever appended, so an index keeps naming the same
//! primitive for as long as the store lives. A new scene gets a new store.

use crate::geometry::DeviceRect;
use crate::gpu_cache::{GpuBlock, GpuCacheHandle};
use crate::internal_types::SourceTexture;
use vstd::prelude::*;

verus! {

#[derive(Clone, Copy, Debug, PartialEq, Eq, Structural)]
pub enum PrimitiveKind {
    Rectangle,
    Image,
    TextRun,
    Border,
    Gradient,
    BoxShadow,
    Picture,
}

/// Index of a primitive in its store.
#[derive(Clone, Copy, Debug, PartialEq, Eq, Structural)]
pub struct PrimitiveIndex(pub usize);

/// What the store keeps of a primitive.
#[derive(Clone, Copy, Debug, PartialEq, Eq, Structural)]
pub struct PrimitiveMetadata {
    pub kind: PrimitiveKind,
    pub local_rect: DeviceRect,
    pub local_clip_rect: DeviceRect,
    pub is_opaque: bool,
    pub blur_radius: u32,
    pub texture: SourceTexture,
    pub gpu_data: GpuBlock,
    pub gpu_handle: GpuCacheHandle,
}

pub struct PrimitiveStore {
    primitives: Vec<PrimitiveMetadata>,
}

impl PrimitiveStore {
    /// The primitives, in the order in which they were added.
    pub closed spec fn view(&self) -> Seq<PrimitiveMetadata> {
        self.primitives@
    }

    pub fn new() -> (s: PrimitiveStore)
        ensures
            s@.len() == 0,
    {
        PrimitiveStore { primitives: Vec::new() }
    }

    pub fn len(&self) -> (n: usize)
        ensures
            n == self@.len(),
    {
        self.primitives.len()
    }

    /// Appends a primitive and returns its index. Every earlier index keeps
    /// naming the primitive it named.
    pub fn add_metadata(&mut self, metadata: PrimitiveMetadata) -> (index: PrimitiveIndex)
        ensures
            index.0 == old(self)@.len(),
            final(self)@ == old(self)@.push(metadata),
    {
        let index = self.primitives.len();
        self.primitives.push(metadata);
        PrimitiveIndex(index)
    }

    /// Appends a primitive that blends, has no blur and samples no texture,
    /// with its data not yet in the GPU cache, and returns its index.
    pub fn add_primitive(
        &mut self,
        kind: PrimitiveKind,
        local_rect: DeviceRect,
        local_clip_rect: DeviceRect,
        gpu_data: GpuBlock,
    ) -> (index: PrimitiveIndex)
        ensures
            index.0 == old(self)@.len(),
            final(self)@ == old(self)@.push(
                PrimitiveMetadata {
                    kind,
                    local_rect,
                    local_clip_rect,
                    is_opaque: false,
                    blur_radius: 0,
                    texture: SourceTexture::Invalid,
                    gpu_data,
                    gpu_handle: GpuCacheHandle { location: None },
                },
            ),
    {
        self.add_metadata(
            PrimitiveMetadata {
                kind,
                local_rect,
                local_clip_rect,
                is_opaque: false,
                blur_radius: 0,
                texture: SourceTexture::Invalid,
                gpu_data,
                gpu_handle: GpuCacheHandle::new(),
            },
        )
    }

    /// Whether the index names a primitive of this store.
    pub fn contains(&self, index: PrimitiveIndex) -> (b: bool)
        ensures
            b == (index.0 < self@.len()),
    {
        index.0 < self.primitives.len()
    }

    pub fn get_metadata(&self, index: PrimitiveIndex) -> (m: &PrimitiveMetadata)
        requires
            index.0 < self@.len(),
        ensures
            *m == self@[index.0 as int],
    {
        &self.primitives[index.0]
    }

    /// Records where the GPU cache put the data of a primitive. Nothing else
    /// of the store changes.
    pub fn set_gpu_handle(&mut self, index: PrimitiveIndex, handle: GpuCacheHandle)
        requires
            index.0 < old(self)@.len(),
        ensures
            final(self)@ == old(self)@.update(
                index.0 as int,
                PrimitiveMetadata {
                    kind: old(self)@[index.0 as int].kind,
                    local_rect: old(self)@[index.0 as int].local_rect,
                    local_clip_rect: old(self)@[index.0 as int].local_clip_rect,
                    is_opaque: old(self)@[index.0 as int].is_opaque,
                    blur_radius: old(self)@[index.0 as int].blur_radius,
                    texture: old(self)@[index.0 as int].texture,
                    gpu_data: old(self)@[index.0 as int].gpu_data,
                    gpu_handle: handle,
                },
            ),
    {
        let m = self.primitives[index.0];
        self.primitives.set(
            index.0,
            PrimitiveMetadata {
                kind: m.kind,
                local_rect: m.local_rect,
                local_clip_rect: m.local_clip_rect,
                is_opaque: m.is_opaque,
                blur_radius: m.blur_radius,
                texture: m.texture,
                gpu_data: m.gpu_data,
                gpu_handle: handle,
            },
        );
    }
}

/// Adding primitives never moves one that is there: an index that named a
/// primitive names it still.
pub proof fn lemma_indices_are_stable(
    before: Seq<PrimitiveMetadata>,
    added: Seq<PrimitiveMetadata>,
    index: int,
)
    requires
        0 <= index < before.len(),
    ensures
        (before + added)[index] == before[index],
{
}

} // verus!

//! Small types shared by the frame builder, the batcher and the device.

use crate::device::TextureId;
use vstd::prelude::*;

verus! {

/// A colour as the bit patterns of its four 32-bit float channels.
#[derive(Clone, Copy, Debug, PartialEq, Eq, Structural)]
pub struct ColorBits {
    pub r: u32,
    pub g: u32,
    pub b: u32,
    pub a: u32,
}

/// The sampler slots of the primitive shaders.
#[derive(Clone, Copy, Debug, PartialEq, Eq, Structural)]
pub enum TextureSampler {
    Color0,
    Color1,
    Color2,
    CacheA8,
    CacheRGBA8,
    SharedCacheA8,
    ResourceCache,
    Layers,
    RenderTasks,
    Dither,
}

/// What a colour slot of a batch samples from.
#[derive(Clone, Copy, Debug, PartialEq, Eq, Structural)]
pub enum SourceTexture {
    Invalid,
    TextureCache(TextureId),
    External(u32),
    CacheA8,
    CacheRGBA8,
}

/// The textures bound to the three colour slots while a batch is drawn.
#[derive(Clone, Copy, Debug, PartialEq, Eq, Structural)]
pub struct BatchTextures {
    pub color0: SourceTexture,
    pub color1: SourceTexture,
    pub color2: SourceTexture,
}

/// Whether a texture can be drawn into.
#[derive(Clone, Copy, Debug, PartialEq, Eq, Structural)]
pub enum RenderTargetMode {
    Plain,
    RenderTarget,
}

impl SourceTexture {
    /// No texture has to be bound for this source.
    pub open spec fn spec_is_skipable(self) -> bool {
        self is Invalid
    }

    pub fn is_skipable(&self) -> (b: bool)
        ensures
            b == self.spec_is_skipable(),
    {
        match self {
            SourceTexture::Invalid => true,
            _ => false,
        }
    }
}

impl SourceTexture {
    /// The texture that is bound for this source, if one has to be: the
    /// texture that the source names, or the cache texture of its kind.
    pub open spec fn spec_resolve(self, cache_a8: TextureId, cache_rgba8: TextureId) -> Option<
        TextureId,
    > {
        match self {
            SourceTexture::Invalid => None,
            SourceTexture::TextureCache(id) => Some(id),
            SourceTexture::External(id) => Some(id),
            SourceTexture::CacheA8 => Some(cache_a8),
            SourceTexture::CacheRGBA8 => Some(cache_rgba8),
        }
    }

    pub fn resolve(&self, cache_a8: TextureId, cache_rgba8: TextureId) -> (r: Option<TextureId>)
        ensures
            r == self.spec_resolve(cache_a8, cache_rgba8),
            r is None <==> self.spec_is_skipable(),
    {
        if self.is_skipable() {
            return None;
        }
        match *self {
            SourceTexture::Invalid => None,
            SourceTexture::TextureCache(id) => Some(id),
            SourceTexture::External(id) => Some(id),
            SourceTexture::CacheA8 => Some(cache_a8),
            SourceTexture::CacheRGBA8 => Some(cache_rgba8),
        }
    }
}

/// What is bound for one colour slot: the slot with its texture, or nothing
/// where the source needs none.
pub open spec fn slot_binding(
    sampler: TextureSampler,
    source: SourceTexture,
    cache_a8: TextureId,
    cache_rgba8: TextureId,
) -> Seq<(TextureSampler, TextureId)> {
    match source.spec_resolve(cache_a8, cache_rgba8) {
        Some(id) => seq![(sampler, id)],
        None => Seq::empty(),
    }
}

impl BatchTextures {
    /// What is bound before a batch is drawn: each colour slot that samples
    /// something, with its texture, in the order of the slots.
    pub open spec fn spec_bindings(self, cache_a8: TextureId, cache_rgba8: TextureId) -> Seq<
        (TextureSampler, TextureId),
    > {
        slot_binding(TextureSampler::Color0, self.color0, cache_a8, cache_rgba8) + slot_binding(
            TextureSampler::Color1,
            self.color1,
            cache_a8,
            cache_rgba8,
        ) + slot_binding(TextureSampler::Color2, self.color2, cache_a8, cache_rgba8)
    }

    pub fn bindings(&self, cache_a8: TextureId, cache_rgba8: TextureId) -> (r: Vec<
        (TextureSampler, TextureId),
    >)
        ensures
            r@ == self.spec_bindings(cache_a8, cache_rgba8),
    {
        let mut r: Vec<(TextureSampler, TextureId)> = Vec::new();
        match self.color0.resolve(cache_a8, cache_rgba8) {
            Some(id) => {
                r.push((TextureSampler::Color0, id));
            },
            None => {},
        }
        assert(r@ =~= slot_binding(TextureSampler::Color0, self.color0, cache_a8, cache_rgba8));
        let ghost first = r@;
        match self.color1.resolve(cache_a8, cache_rgba8) {
            Some(id) => {
                r.push((TextureSampler::Color1, id));
            },
            None => {},
        }
        assert(r@ =~= first + slot_binding(
            TextureSampler::Color1,
            self.color1,
            cache_a8,
            cache_rgba8,
        ));
        let ghost second = r@;
        match self.color2.resolve(cache_a8, cache_rgba8) {
            Some(id) => {
                r.push((TextureSampler::Color2, id));
            },
            None => {},
        }
        assert(r@ =~= second + slot_binding(
            TextureSampler::Color2,
            self.color2,
            cache_a8,
            cache_rgba8,
        ));
        r
    }

    /// No colour slot samples anything.
    pub fn no_texture() -> (t: BatchTextures)
        ensures
            t == (BatchTextures {
                color0: SourceTexture::Invalid,
                color1: SourceTexture::Invalid,
                color2: SourceTexture::Invalid,
            }),
    {
        BatchTextures {
            color0: SourceTexture::Invalid,
            color1: SourceTexture::Invalid,
            color2: SourceTexture::Invalid,
        }
    }
}

} // verus!

//! Bookkeeping of the rendering device: frame counter, texture table, bound
//! textures, vertex layouts and the GPU profiler's frame ring.

use crate::internal_types::TextureSampler;
use crate::tiling::RenderTargetKind;
use rand::Rng;
use std::collections::HashMap;
use vstd::prelude::*;

verus! {

/// The number of a frame.
#[derive(Debug, Copy, Clone, PartialEq, Ord, Eq, PartialOrd)]
pub struct FrameId(usize);

impl FrameId {
    /// The frame's number.
    pub closed spec fn view(&self) -> int {
        self.0 as int
    }

    pub fn new(value: usize) -> (f: FrameId)
        ensures
            f@ == value,
    {
        FrameId(value)
    }

    pub fn as_usize(&self) -> (v: usize)
        ensures
            v == self@,
    {
        self.0
    }

    /// The number of a frame is a machine word.
    pub proof fn lemma_number_is_a_word(self)
        ensures
            0 <= self@ <= usize::MAX,
    {
    }
}

impl std::ops::Add<usize> for FrameId {
    type Output = FrameId;

    /// The frame that comes `other` frames later.
    fn add(self, other: usize) -> (r: FrameId)
        ensures
            r@ == self@ + other,
    {
        FrameId(self.0 + other)
    }
}

impl vstd::std_specs::ops::AddSpecImpl<usize> for FrameId {
    open spec fn obeys_add_spec() -> bool {
        true
    }

    open spec fn add_req(self, other: usize) -> bool {
        self@ + other <= usize::MAX
    }

    closed spec fn add_spec(self, other: usize) -> FrameId {
        FrameId((self.0 + other) as usize)
    }
}

pub const LAYER_TEXTURE_WIDTH: usize = 1017;

pub const RENDER_TASK_TEXTURE_WIDTH: usize = 1023;

pub const TEXTURE_HEIGTH: usize = 8;

pub const MAX_INSTANCE_COUNT: usize = 5000;

pub const A_STRIDE: usize = 1;

pub const RG_STRIDE: usize = 2;

pub const RGB_STRIDE: usize = 3;

pub const RGBA_STRIDE: usize = 4;

/// A texture as the device knows it.
pub type TextureId = u32;

pub const DUMMY_A8: TextureId = 0;

pub const DUMMY_RGBA8: TextureId = 1;

pub const DITHER: TextureId = 2;

/// The first id that a texture made at run time can get.
pub const FIRST_UNRESERVED_ID: TextureId = DITHER + 1;

/// How often a texture id is drawn at random before the ids are searched in
/// order.
pub const RANDOM_ID_ATTEMPTS: usize = 16;

pub const MAX_TIMERS_PER_FRAME: usize = 256;

pub const MAX_SAMPLERS_PER_FRAME: usize = 16;

pub const MAX_PROFILE_FRAMES: usize = 4;

pub struct TextureSlot(pub usize);

#[derive(Copy, Clone, Debug, PartialEq, Eq, Structural)]
pub enum TextureTarget {
    Default,
    Array,
    Rect,
    External,
}

#[derive(Copy, Clone, Debug, PartialEq, Eq, Structural)]
pub enum TextureFilter {
    Nearest,
    Linear,
}

#[derive(Debug, Copy, Clone, PartialEq, Eq, Structural)]
pub enum VertexAttributeKind {
    F32,
    U8Norm,
    I32,
    U16,
}

#[derive(Debug)]
pub struct VertexAttribute {
    pub name: &'static str,
    pub count: u32,
    pub kind: VertexAttributeKind,
}

#[derive(Debug)]
pub struct VertexDescriptor {
    pub vertex_attributes: &'static [VertexAttribute],
    pub instance_attributes: &'static [VertexAttribute],
}

impl VertexAttributeKind {
    pub open spec fn spec_size_in_bytes(self) -> int {
        match self {
            VertexAttributeKind::F32 => 4,
            VertexAttributeKind::U8Norm => 1,
            VertexAttributeKind::I32 => 4,
            VertexAttributeKind::U16 => 2,
        }
    }

    pub fn size_in_bytes(&self) -> (n: u32)
        ensures
            n == self.spec_size_in_bytes(),
    {
        match *self {
            VertexAttributeKind::F32 => 4,
            VertexAttributeKind::U8Norm => 1,
            VertexAttributeKind::I32 => 4,
            VertexAttributeKind::U16 => 2,
        }
    }
}

impl VertexAttribute {
    /// The bytes that the attribute takes in a vertex.
    pub open spec fn spec_size_in_bytes(self) -> int {
        self.count * self.kind.spec_size_in_bytes()
    }

    pub fn size_in_bytes(&self) -> (n: u32)
        requires
            self.spec_size_in_bytes() <= u32::MAX,
        ensures
            n == self.spec_size_in_bytes(),
    {
        self.count * self.kind.size_in_bytes()
    }
}

/// The bytes that the first `n` attributes take together.
pub open spec fn stride_upto(attributes: Seq<VertexAttribute>, n: int) -> int
    decreases n,
{
    if n <= 0 || n > attributes.len() {
        0
    } else {
        stride_upto(attributes, n - 1) + attributes[n - 1].spec_size_in_bytes()
    }
}

proof fn lemma_stride_grows(attributes: Seq<VertexAttribute>, n: int, m: int)
    requires
        0 <= n <= m <= attributes.len(),
    ensures
        0 <= stride_upto(attributes, n) <= stride_upto(attributes, m),
    decreases m,
{
    if n < m {
        lemma_stride_grows(attributes, n, m - 1);
    }
    if n == m && n > 0 {
        lemma_stride_grows(attributes, n - 1, n - 1);
    }
}

impl VertexDescriptor {
    /// The bytes of one instance: the sizes of the instance attributes,
    /// added up.
    pub open spec fn spec_instance_stride(self) -> int {
        stride_upto(self.instance_attributes@, self.instance_attributes@.len() as int)
    }

    pub fn instance_stride(&self) -> (n: u32)
        requires
            self.spec_instance_stride() <= u32::MAX,
        ensures
            n == self.spec_instance_stride(),
    {
        let attributes = self.instance_attributes;
        let mut total: u32 = 0;
        let mut i: usize = 0;
        while i < attributes.len()
            invariant
                i <= attributes@.len(),
                attributes@ == self.instance_attributes@,
                total == stride_upto(attributes@, i as int),
                stride_upto(attributes@, attributes@.len() as int) <= u32::MAX,
            decreases attributes@.len() - i,
        {
            proof {
                lemma_stride_grows(attributes@, i + 1, attributes@.len() as int);
                lemma_stride_grows(attributes@, i as int, i as int);
            }
            total = total + attributes[i].size_in_bytes();
            i += 1;
        }
        total
    }
}

/// The size of a data texture as the device takes it: each side kept to 16
/// bits.
pub fn texture_dimensions(size: [usize; 2]) -> (r: (u16, u16))
    ensures
        r.0 == size@[0] % 0x10000,
        r.1 == size@[1] % 0x10000,
{
    ((size[0] % 0x10000) as u16, (size[1] % 0x10000) as u16)
}

/// What is timed or counted can say what it is called.
pub trait NamedTag {
    fn get_label(&self) -> &str;
}

#[derive(Debug, Clone)]
pub struct GpuTimer<T> {
    pub tag: T,
    pub time_ns: u64,
}

#[derive(Debug, Clone)]
pub struct GpuSampler<T> {
    pub tag: T,
    pub count: u64,
}

pub struct QuerySet<T> {
    data: Vec<T>,
}

impl<T> QuerySet<T> {
    /// The queries, in the order in which they were added.
    pub closed spec fn view(&self) -> Seq<T> {
        self.data@
    }

    pub fn new() -> (q: Self)
        ensures
            q@.len() == 0,
    {
        QuerySet { data: Vec::new() }
    }

    pub fn reset(&mut self)
        ensures
            final(self)@.len() == 0,
    {
        self.data.clear();
    }

    pub fn add(&mut self, value: T)
        ensures
            final(self)@ == old(self)@.push(value),
    {
        self.data.push(value);
    }

    /// Hands the queries out and leaves none behind.
    pub fn take(&mut self) -> (data: Vec<T>)
        ensures
            data@ == old(self)@,
            final(self)@.len() == 0,
    {
        let mut data: Vec<T> = Vec::new();
        std::mem::swap(&mut self.data, &mut data);
        data
    }
}

#[must_use]
pub struct GpuMarker {}

impl GpuMarker {
    pub fn new(message: &str) -> (m: GpuMarker) {
        GpuMarker {  }
    }

    pub fn fire(message: &str) {
    }
}

pub struct GpuFrameProfile<T> {
    timers: QuerySet<GpuTimer<T>>,
    samplers: QuerySet<GpuSampler<T>>,
    frame_id: FrameId,
    inside_frame: bool,
}

impl<T> GpuFrameProfile<T> {
    pub closed spec fn timers(&self) -> Seq<GpuTimer<T>> {
        self.timers@
    }

    pub closed spec fn samplers(&self) -> Seq<GpuSampler<T>> {
        self.samplers@
    }

    pub closed spec fn frame_id(&self) -> FrameId {
        self.frame_id
    }

    pub closed spec fn inside_frame(&self) -> bool {
        self.inside_frame
    }

    pub fn new() -> (p: Self)
        ensures
            p.timers().len() == 0,
            p.samplers().len() == 0,
            p.frame_id()@ == 0,
            !p.inside_frame(),
    {
        GpuFrameProfile {
            timers: QuerySet::new(),
            samplers: QuerySet::new(),
            frame_id: FrameId(0),
            inside_frame: false,
        }
    }

    /// Starts the profile of frame `frame_id`, without timers or samplers.
    pub fn begin_frame(&mut self, frame_id: FrameId)
        ensures
            final(self).frame_id() == frame_id,
            final(self).timers().len() == 0,
            final(self).samplers().len() == 0,
            final(self).inside_frame(),
    {
        self.frame_id = frame_id;
        self.timers.reset();
        self.samplers.reset();
        self.inside_frame = true;
    }

    pub fn end_frame(&mut self)
        requires
            old(self).inside_frame(),
        ensures
            !final(self).inside_frame(),
            final(self).frame_id() == old(self).frame_id(),
            final(self).timers() == old(self).timers(),
            final(self).samplers() == old(self).samplers(),
    {
        self.done_marker();
        self.done_sampler();
        self.inside_frame = false;
    }

    pub fn done_marker(&mut self)
        requires
            old(self).inside_frame(),
        ensures
            *final(self) == *old(self),
    {
    }

    /// Starts a timer for `tag`, with no time measured yet.
    pub fn add_marker(&mut self, tag: T) -> (m: GpuMarker) where T: NamedTag
        requires
            old(self).inside_frame(),
        ensures
            final(self).timers() == old(self).timers().push(GpuTimer { tag, time_ns: 0 }),
            final(self).samplers() == old(self).samplers(),
            final(self).frame_id() == old(self).frame_id(),
            final(self).inside_frame(),
    {
        self.done_marker();
        let marker = GpuMarker::new(tag.get_label());
        self.timers.add(GpuTimer { tag, time_ns: 0 });
        marker
    }

    pub fn done_sampler(&mut self)
        ensures
            *final(self) == *old(self),
    {
    }

    pub fn add_sampler(&mut self, _tag: T) where T: NamedTag
        ensures
            *final(self) == *old(self),
    {
    }

    pub fn is_valid(&self) -> (b: bool)
        ensures
            b,
    {
        true
    }

    /// Hands out the timers and samplers of the frame and leaves none
    /// behind.
    pub fn build_samples(&mut self) -> (r: (Vec<GpuTimer<T>>, Vec<GpuSampler<T>>))
        requires
            !old(self).inside_frame(),
        ensures
            r.0@ == old(self).timers(),
            r.1@ == old(self).samplers(),
            final(self).timers().len() == 0,
            final(self).samplers().len() == 0,
            final(self).frame_id() == old(self).frame_id(),
            !final(self).inside_frame(),
    {
        (self.timers.take(), self.samplers.take())
    }
}

/// Profiles of the last frames, in a ring.
pub struct GpuProfiler<T> {
    frames: [GpuFrameProfile<T>; 4],
    next_frame: usize,
}

impl<T> GpuProfiler<T> {
    /// The profiles of the ring.
    pub closed spec fn frames(&self) -> Seq<GpuFrameProfile<T>> {
        self.frames@
    }

    /// The place in the ring of the frame that is profiled next.
    pub closed spec fn next_frame(&self) -> int {
        self.next_frame as int
    }

    /// The profile of the frame that is profiled next.
    pub open spec fn current(&self) -> GpuFrameProfile<T> {
        self.frames()[self.next_frame()]
    }

    pub open spec fn wf(&self) -> bool {
        0 <= self.next_frame() < MAX_PROFILE_FRAMES && self.frames().len() == MAX_PROFILE_FRAMES
    }

    pub fn new() -> (p: GpuProfiler<T>)
        ensures
            p.wf(),
            p.next_frame() == 0,
            forall|i: int|
                0 <= i < MAX_PROFILE_FRAMES ==> !(#[trigger] p.frames()[i]).inside_frame()
                    && p.frames()[i].timers().len() == 0 && p.frames()[i].samplers().len() == 0
                    && p.frames()[i].frame_id()@ == 0,
    {
        GpuProfiler {
            next_frame: 0,
            frames: [
                GpuFrameProfile::new(),
                GpuFrameProfile::new(),
                GpuFrameProfile::new(),
                GpuFrameProfile::new(),
            ],
        }
    }

    /// Whether the frame that is profiled next has begun and not ended.
    pub fn is_inside_frame(&self) -> (b: bool)
        requires
            self.wf(),
        ensures
            b == self.current().inside_frame(),
    {
        self.frames[self.next_frame].inside_frame
    }

    /// Hands out what the oldest profile of the ring holds: its frame, its
    /// timers and its samplers.
    pub fn build_samples(&mut self) -> (r: Option<(FrameId, Vec<GpuTimer<T>>, Vec<GpuSampler<T>>)>)
        requires
            old(self).wf(),
            !old(self).current().inside_frame(),
        ensures
            final(self).wf(),
            final(self).next_frame() == old(self).next_frame(),
            r matches Some(s) && s.0 == old(self).current().frame_id() && s.1@ == old(self).current().timers() && s.2@ == old(self).current().samplers(),
            final(self).current().timers().len() == 0,
            final(self).current().samplers().len() == 0,
            !final(self).current().inside_frame(),
            forall|i: int|
                0 <= i < MAX_PROFILE_FRAMES && i != old(self).next_frame() ==> final(self).frames()[i] == old(self).frames()[i],
    {
        let next = self.next_frame;
        if self.frames[next].is_valid() {
            let (timers, samplers) = self.frames[next].build_samples();
            Some((self.frames[next].frame_id, timers, samplers))
        } else {
            None
        }
    }

    pub fn begin_frame(&mut self, frame_id: FrameId)
        requires
            old(self).wf(),
        ensures
            final(self).wf(),
            final(self).next_frame() == old(self).next_frame(),
            final(self).current().frame_id() == frame_id,
            final(self).current().inside_frame(),
            final(self).current().timers().len() == 0,
            final(self).current().samplers().len() == 0,
            forall|i: int|
                0 <= i < MAX_PROFILE_FRAMES && i != old(self).next_frame() ==> final(self).frames()[i] == old(self).frames()[i],
    {
        let next = self.next_frame;
        self.frames[next].begin_frame(frame_id);
    }

    /// Ends the frame and moves on to the next place in the ring.
    pub fn end_frame(&mut self)
        requires
            old(self).wf(),
            old(self).current().inside_frame(),
        ensures
            final(self).wf(),
            final(self).next_frame() == (old(self).next_frame() + 1) % (MAX_PROFILE_FRAMES as int),
            !final(self).frames()[old(self).next_frame()].inside_frame(),
            final(self).frames()[old(self).next_frame()].timers() == old(self).current().timers(),
            final(self).frames()[old(self).next_frame()].samplers() == old(self).current().samplers(),
            final(self).frames()[old(self).next_frame()].frame_id() == old(self).current().frame_id(),
            forall|i: int|
                0 <= i < MAX_PROFILE_FRAMES && i != old(self).next_frame() ==> final(self).frames()[i] == old(self).frames()[i],
    {
        let next = self.next_frame;
        self.frames[next].end_frame();
        self.next_frame = (self.next_frame + 1) % MAX_PROFILE_FRAMES;
    }

    pub fn add_marker(&mut self, tag: T) -> (m: GpuMarker) where T: NamedTag
        requires
            old(self).wf(),
            old(self).current().inside_frame(),
        ensures
            final(self).wf(),
            final(self).next_frame() == old(self).next_frame(),
            final(self).current().timers() == old(self).current().timers().push(
                GpuTimer { tag, time_ns: 0 },
            ),
            final(self).current().samplers() == old(self).current().samplers(),
            final(self).current().frame_id() == old(self).current().frame_id(),
            final(self).current().inside_frame(),
            forall|i: int|
                0 <= i < MAX_PROFILE_FRAMES && i != old(self).next_frame() ==> final(self).frames()[i] == old(self).frames()[i],
    {
        let next = self.next_frame;
        self.frames[next].add_marker(tag)
    }

    pub fn add_sampler(&mut self, tag: T) where T: NamedTag
        requires
            old(self).wf(),
        ensures
            final(self).frames() == old(self).frames(),
            final(self).next_frame() == old(self).next_frame(),
    {
        let next = self.next_frame;
        let ghost before = self.frames@;
        self.frames[next].add_sampler(tag);
        assert(self.frames@ =~= before);
    }

    pub fn done_sampler(&mut self)
        requires
            old(self).wf(),
        ensures
            final(self).frames() == old(self).frames(),
            final(self).next_frame() == old(self).next_frame(),
    {
        let next = self.next_frame;
        let ghost before = self.frames@;
        self.frames[next].done_sampler();
        assert(self.frames@ =~= before);
    }
}

#[derive(Debug, Copy, Clone, PartialEq, Eq, Structural)]
pub enum VertexUsageHint {
    Static,
    Dynamic,
    Stream,
}

#[derive(Debug, Copy, Clone, PartialEq, Eq, Structural)]
pub struct Capabilities {
    pub supports_multisampling: bool,
}

#[derive(Clone, Debug)]
pub enum ShaderError {
    /// Name and error message.
    Compilation(String, String),
    /// Name and error message.
    Link(String, String),
}

#[derive(Debug, Copy, Clone, PartialEq, Eq, Structural)]
pub struct BoundTextures {
    pub color0: TextureId,
    pub color1: TextureId,
    pub color2: TextureId,
    pub cache_a8: TextureId,
    pub cache_rgba8: TextureId,
    pub shared_cache_a8: TextureId,
}

/// What the device keeps of a cache texture.
#[derive(Debug, Copy, Clone, PartialEq, Eq, Structural)]
pub struct CacheTextureInfo {
    pub width: u32,
    pub height: u32,
}

/// A data texture that shaders read tables from.
#[derive(Debug, Copy, Clone, PartialEq, Eq, Structural)]
pub enum DataTextureKind {
    ResourceCache,
    Layers,
    RenderTasks,
}

/// The sizes of the data textures that a device starts with.
#[derive(Debug, Copy, Clone)]
pub struct DataTextureSizes {
    pub layers: (usize, usize),
    pub render_tasks: (usize, usize),
    pub resource_cache: (usize, usize),
}

/// The generator of the operating system.
#[verifier::external_type_specification]
#[verifier::external_body]
pub struct ExOsRng(rand::OsRng);

/// `rand::OsRng::new`: opens the random number generator of the operating
/// system. Nothing is claimed of the result; where the system has no
/// generator to offer, there is none.
#[verifier::external_body]
fn os_rng() -> (r: Option<rand::OsRng>) {
    rand::OsRng::new().ok()
}

/// `rand::Rng::gen_range` on the system generator: a number that is at
/// least `low` and less than `high`. Which number it is depends on chance.
#[verifier::external_body]
fn random_in_range(rng: &mut rand::OsRng, low: u32, high: u32) -> (r: u32)
    requires
        low < high,
    ensures
        low <= r < high,
{
    rng.gen_range(low, high)
}

/// The bookkeeping of a device: which textures there are, which are bound,
/// and which frame is being drawn.
pub struct Device {
    bound_textures: BoundTextures,
    cache_a8_textures: HashMap<TextureId, CacheTextureInfo>,
    cache_rgba8_textures: HashMap<TextureId, CacheTextureInfo>,
    capabilities: Capabilities,
    inside_frame: bool,
    max_texture_size: u32,
    frame_id: FrameId,
}

impl Device {
    pub closed spec fn bound_textures(&self) -> BoundTextures {
        self.bound_textures
    }

    /// The alpha cache textures, by id.
    pub closed spec fn a8_textures(&self) -> Map<TextureId, CacheTextureInfo> {
        self.cache_a8_textures@
    }

    /// The colour cache textures, by id.
    pub closed spec fn rgba8_textures(&self) -> Map<TextureId, CacheTextureInfo> {
        self.cache_rgba8_textures@
    }

    pub closed spec fn inside_frame(&self) -> bool {
        self.inside_frame
    }

    pub closed spec fn frame_id(&self) -> FrameId {
        self.frame_id
    }

    pub closed spec fn spec_max_texture_size(&self) -> u32 {
        self.max_texture_size
    }

    pub closed spec fn capabilities(&self) -> Capabilities {
        self.capabilities
    }

    /// A cache texture has the id.
    pub open spec fn is_taken(&self, id: TextureId) -> bool {
        self.a8_textures().contains_key(id) || self.rgba8_textures().contains_key(id)
    }

    /// The two dummy textures are there, and the maps are finite.
    pub closed spec fn wf(&self) -> bool {
        &&& self.cache_a8_textures@.contains_key(DUMMY_A8)
        &&& self.cache_rgba8_textures@.contains_key(DUMMY_RGBA8)
        &&& self.cache_a8_textures@.dom().finite()
        &&& self.cache_rgba8_textures@.dom().finite()
    }

    /// A device outside a frame, with its two dummy cache textures of one
    /// pixel each, and every colour slot bound to a dummy texture.
    pub fn new() -> (d: Device)
        ensures
            d.wf(),
            !d.inside_frame(),
            d.frame_id()@ == 0,
            d.spec_max_texture_size() == 1024,
            d.capabilities() == (Capabilities { supports_multisampling: false }),
            d.a8_textures() == Map::<TextureId, CacheTextureInfo>::empty().insert(
                DUMMY_A8,
                CacheTextureInfo { width: 1, height: 1 },
            ),
            d.rgba8_textures() == Map::<TextureId, CacheTextureInfo>::empty().insert(
                DUMMY_RGBA8,
                CacheTextureInfo { width: 1, height: 1 },
            ),
            d.bound_textures() == (BoundTextures {
                color0: DUMMY_RGBA8,
                color1: DUMMY_RGBA8,
                color2: DUMMY_RGBA8,
                cache_a8: DUMMY_A8,
                cache_rgba8: DUMMY_RGBA8,
                shared_cache_a8: DUMMY_A8,
            }),
    {
        let mut cache_a8_textures: HashMap<TextureId, CacheTextureInfo> = HashMap::new();
        cache_a8_textures.insert(DUMMY_A8, CacheTextureInfo { width: 1, height: 1 });
        let mut cache_rgba8_textures: HashMap<TextureId, CacheTextureInfo> = HashMap::new();
        cache_rgba8_textures.insert(DUMMY_RGBA8, CacheTextureInfo { width: 1, height: 1 });
        Device {
            bound_textures: BoundTextures {
                color0: DUMMY_RGBA8,
                color1: DUMMY_RGBA8,
                color2: DUMMY_RGBA8,
                cache_a8: DUMMY_A8,
                cache_rgba8: DUMMY_RGBA8,
                shared_cache_a8: DUMMY_A8,
            },
            cache_a8_textures,
            cache_rgba8_textures,
            capabilities: Capabilities { supports_multisampling: false },
            inside_frame: false,
            max_texture_size: 1024,
            frame_id: FrameId(0),
        }
    }

    /// The sizes of the data textures that go with a device whose textures
    /// are at most `max_texture_size` wide and high.
    pub fn data_texture_sizes(max_texture_size: usize) -> (s: DataTextureSizes)
        ensures
            s.layers == (LAYER_TEXTURE_WIDTH, 64usize),
            s.render_tasks == (RENDER_TASK_TEXTURE_WIDTH, TEXTURE_HEIGTH),
            s.resource_cache == (max_texture_size, max_texture_size),
    {
        DataTextureSizes {
            layers: (LAYER_TEXTURE_WIDTH, 64),
            render_tasks: (RENDER_TASK_TEXTURE_WIDTH, TEXTURE_HEIGTH),
            resource_cache: (max_texture_size, max_texture_size),
        }
    }

    pub fn dummy_cache_a8(&self) -> (t: CacheTextureInfo)
        requires
            self.wf(),
        ensures
            t == self.a8_textures()[DUMMY_A8],
    {
        match self.cache_a8_textures.get(&DUMMY_A8) {
            Some(t) => *t,
            None => CacheTextureInfo { width: 1, height: 1 },
        }
    }

    pub fn dummy_cache_rgba8(&self) -> (t: CacheTextureInfo)
        requires
            self.wf(),
        ensures
            t == self.rgba8_textures()[DUMMY_RGBA8],
    {
        match self.cache_rgba8_textures.get(&DUMMY_RGBA8) {
            Some(t) => *t,
            None => CacheTextureInfo { width: 1, height: 1 },
        }
    }

    pub fn max_texture_size(&self) -> (n: u32)
        ensures
            n == self.spec_max_texture_size(),
    {
        self.max_texture_size
    }

    pub fn get_capabilities(&self) -> (c: &Capabilities)
        ensures
            *c == self.capabilities(),
    {
        &self.capabilities
    }

    pub fn get_bound_textures(&self) -> (b: BoundTextures)
        ensures
            b == self.bound_textures(),
    {
        self.bound_textures
    }

    pub fn is_inside_frame(&self) -> (b: bool)
        ensures
            b == self.inside_frame(),
    {
        self.inside_frame
    }

    pub fn current_frame_id(&self) -> (f: FrameId)
        ensures
            f == self.frame_id(),
    {
        self.frame_id
    }

    pub fn reset_state(&mut self)
        ensures
            *final(self) == *old(self),
    {
    }

    /// Enters the frame and says which frame it is.
    pub fn begin_frame(&mut self) -> (f: FrameId)
        requires
            !old(self).inside_frame(),
        ensures
            final(self).inside_frame(),
            f == old(self).frame_id(),
            final(self).frame_id() == old(self).frame_id(),
            final(self).bound_textures() == old(self).bound_textures(),
            final(self).a8_textures() == old(self).a8_textures(),
            final(self).rgba8_textures() == old(self).rgba8_textures(),
            final(self).wf() == old(self).wf(),
    {
        self.inside_frame = true;
        self.frame_id
    }

    /// Leaves the frame; the next frame has the next number.
    pub fn end_frame(&mut self)
        requires
            old(self).inside_frame(),
            old(self).frame_id()@ < usize::MAX,
        ensures
            !final(self).inside_frame(),
            final(self).frame_id()@ == old(self).frame_id()@ + 1,
            final(self).bound_textures() == old(self).bound_textures(),
            final(self).a8_textures() == old(self).a8_textures(),
            final(self).rgba8_textures() == old(self).rgba8_textures(),
            final(self).wf() == old(self).wf(),
    {
        self.inside_frame = false;
        self.frame_id = FrameId(self.frame_id.0 + 1);
    }

    /// What is bound after `texture` was bound to `sampler`: the slot of a
    /// colour or cache sampler holds `texture`; any other sampler changes
    /// nothing.
    pub open spec fn bound_after(
        bound: BoundTextures,
        sampler: TextureSampler,
        texture: TextureId,
    ) -> BoundTextures {
        match sampler {
            TextureSampler::Color0 => BoundTextures {
                color0: texture,
                color1: bound.color1,
                color2: bound.color2,
                cache_a8: bound.cache_a8,
                cache_rgba8: bound.cache_rgba8,
                shared_cache_a8: bound.shared_cache_a8,
            },
            TextureSampler::Color1 => BoundTextures {
                color0: bound.color0,
                color1: texture,
                color2: bound.color2,
                cache_a8: bound.cache_a8,
                cache_rgba8: bound.cache_rgba8,
                shared_cache_a8: bound.shared_cache_a8,
            },
            TextureSampler::Color2 => BoundTextures {
                color0: bound.color0,
                color1: bound.color1,
                color2: texture,
                cache_a8: bound.cache_a8,
                cache_rgba8: bound.cache_rgba8,
                shared_cache_a8: bound.shared_cache_a8,
            },
            TextureSampler::CacheA8 => BoundTextures {
                color0: bound.color0,
                color1: bound.color1,
                color2: bound.color2,
                cache_a8: texture,
                cache_rgba8: bound.cache_rgba8,
                shared_cache_a8: bound.shared_cache_a8,
            },
            TextureSampler::CacheRGBA8 => BoundTextures {
                color0: bound.color0,
                color1: bound.color1,
                color2: bound.color2,
                cache_a8: bound.cache_a8,
                cache_rgba8: texture,
                shared_cache_a8: bound.shared_cache_a8,
            },
            TextureSampler::SharedCacheA8 => BoundTextures {
                color0: bound.color0,
                color1: bound.color1,
                color2: bound.color2,
                cache_a8: bound.cache_a8,
                cache_rgba8: bound.cache_rgba8,
                shared_cache_a8: texture,
            },
            _ => bound,
        }
    }

    pub fn bind_texture(&mut self, sampler: TextureSampler, texture: TextureId)
        requires
            old(self).inside_frame(),
        ensures
            final(self).bound_textures() == Self::bound_after(
                old(self).bound_textures(),
                sampler,
                texture,
            ),
            final(self).inside_frame(),
            final(self).frame_id() == old(self).frame_id(),
            final(self).a8_textures() == old(self).a8_textures(),
            final(self).rgba8_textures() == old(self).rgba8_textures(),
            final(self).wf() == old(self).wf(),
    {
        match sampler {
            TextureSampler::Color0 => self.bound_textures.color0 = texture,
            TextureSampler::Color1 => self.bound_textures.color1 = texture,
            TextureSampler::Color2 => self.bound_textures.color2 = texture,
            TextureSampler::CacheA8 => self.bound_textures.cache_a8 = texture,
            TextureSampler::CacheRGBA8 => self.bound_textures.cache_rgba8 = texture,
            TextureSampler::SharedCacheA8 => self.bound_textures.shared_cache_a8 = texture,
            _ => {},
        }
    }

    /// The data texture that a sampler reads, if it reads one.
    pub fn data_texture_for(sampler: TextureSampler) -> (r: Option<DataTextureKind>)
        ensures
            r == match sampler {
                TextureSampler::ResourceCache => Some(DataTextureKind::ResourceCache),
                TextureSampler::Layers => Some(DataTextureKind::Layers),
                TextureSampler::RenderTasks => Some(DataTextureKind::RenderTasks),
                _ => None,
            },
    {
        match sampler {
            TextureSampler::ResourceCache => Some(DataTextureKind::ResourceCache),
            TextureSampler::Layers => Some(DataTextureKind::Layers),
            TextureSampler::RenderTasks => Some(DataTextureKind::RenderTasks),
            _ => None,
        }
    }

    /// Whether a cache texture has the id.
    pub fn has_texture(&self, id: TextureId) -> (b: bool)
        ensures
            b == self.is_taken(id),
    {
        self.cache_a8_textures.contains_key(&id) || self.cache_rgba8_textures.contains_key(&id)
    }

    /// Takes a candidate for a texture id if it is one that a new texture
    /// can get: not reserved, not the largest number, and not taken.
    pub fn pick_texture_id(&self, candidate: TextureId) -> (r: Option<TextureId>)
        ensures
            r == if FIRST_UNRESERVED_ID <= candidate < u32::MAX && !self.is_taken(candidate) {
                Some(candidate)
            } else {
                None
            },
    {
        if candidate >= FIRST_UNRESERVED_ID && candidate < u32::MAX && !self.has_texture(
            candidate,
        ) {
            Some(candidate)
        } else {
            None
        }
    }

    /// The least id from `FIRST_UNRESERVED_ID` on that is not taken, looked
    /// for among as many ids as there are cache textures, and one more.
    pub fn first_free_id(&self) -> (r: Option<TextureId>)
        requires
            self.wf(),
        ensures
            r matches Some(id) ==> FIRST_UNRESERVED_ID <= id < u32::MAX && !self.is_taken(id)
                && forall|other: TextureId|
                FIRST_UNRESERVED_ID <= other < id ==> self.is_taken(other),
            r is None ==> forall|other: TextureId|
                FIRST_UNRESERVED_ID <= other < u32::MAX && other - FIRST_UNRESERVED_ID
                    <= self.a8_textures().len() + self.rgba8_textures().len() ==> self.is_taken(
                    other,
                ),
    {
        let count: usize = self.cache_a8_textures.len();
        let more: usize = self.cache_rgba8_textures.len();
        let most: usize = 0xffff_ffff;
        let budget: u64 = (if count > most {
            most
        } else {
            count
        }) as u64 + (if more > most {
            most
        } else {
            more
        }) as u64;
        let mut id: TextureId = FIRST_UNRESERVED_ID;
        let mut tried: u64 = 0;
        while id < u32::MAX
            invariant
                FIRST_UNRESERVED_ID <= id <= u32::MAX,
                tried == id - FIRST_UNRESERVED_ID,
                count == self.a8_textures().len(),
                more == self.rgba8_textures().len(),
                budget == (if count > 0xffff_ffff {
                    0xffff_ffff
                } else {
                    count as int
                }) + (if more > 0xffff_ffff {
                    0xffff_ffff
                } else {
                    more as int
                }),
                forall|other: TextureId| FIRST_UNRESERVED_ID <= other < id ==> self.is_taken(other),
            decreases u32::MAX - id,
        {
            if !self.has_texture(id) {
                return Some(id);
            }
            if tried >= budget {
                return None;
            }
            id += 1;
            tried += 1;
        }
        None
    }

    /// An id for a new cache texture. `FIRST_UNRESERVED_ID` is taken if it
    /// is free. Else ids are drawn at random, a fixed number of times, and
    /// the first free one is taken; if none of them is free, or the system
    /// has no random numbers to give, the least free id is looked for.
    pub fn generate_texture_id(&self) -> (r: Option<TextureId>)
        requires
            self.wf(),
        ensures
            r matches Some(id) ==> FIRST_UNRESERVED_ID <= id < u32::MAX && !self.is_taken(id),
            !self.is_taken(FIRST_UNRESERVED_ID) ==> r == Some(FIRST_UNRESERVED_ID),
            r is None ==> forall|other: TextureId|
                FIRST_UNRESERVED_ID <= other < u32::MAX && other - FIRST_UNRESERVED_ID
                    <= self.a8_textures().len() + self.rgba8_textures().len() ==> self.is_taken(
                    other,
                ),
    {
        match self.pick_texture_id(FIRST_UNRESERVED_ID) {
            Some(id) => {
                return Some(id);
            },
            None => {},
        }
        match os_rng() {
            Some(mut rng) => {
                let mut attempt: usize = 0;
                while attempt < RANDOM_ID_ATTEMPTS
                    invariant
                        attempt <= RANDOM_ID_ATTEMPTS,
                        self.is_taken(FIRST_UNRESERVED_ID),
                    decreases RANDOM_ID_ATTEMPTS - attempt,
                {
                    let candidate = random_in_range(&mut rng, FIRST_UNRESERVED_ID, u32::MAX);
                    match self.pick_texture_id(candidate) {
                        Some(id) => {
                            return Some(id);
                        },
                        None => {},
                    }
                    attempt += 1;
                }
            },
            None => {},
        }
        self.first_free_id()
    }

    /// Records a new cache texture of the given size and kind under a new
    /// id, and returns the id; or nothing, with nothing recorded, where no
    /// id was found.
    pub fn create_cache_texture(&mut self, width: u32, height: u32, kind: RenderTargetKind) -> (r:
        Option<TextureId>)
        requires
            old(self).wf(),
        ensures
            final(self).wf(),
            final(self).bound_textures() == old(self).bound_textures(),
            final(self).inside_frame() == old(self).inside_frame(),
            final(self).frame_id() == old(self).frame_id(),
            r matches Some(id) ==> FIRST_UNRESERVED_ID <= id < u32::MAX && !old(self).is_taken(id)
                && match kind {
                RenderTargetKind::Alpha => final(self).a8_textures() == old(self).a8_textures().insert(id, CacheTextureInfo { width, height }) && final(self).rgba8_textures() == old(self).rgba8_textures(),
                RenderTargetKind::Color => final(self).rgba8_textures() == old(self).rgba8_textures().insert(id, CacheTextureInfo { width, height }) && final(self).a8_textures() == old(self).a8_textures(),
            },
            !old(self).is_taken(FIRST_UNRESERVED_ID) ==> r == Some(FIRST_UNRESERVED_ID),
            r is None ==> final(self).a8_textures() == old(self).a8_textures() && final(self).rgba8_textures() == old(self).rgba8_textures(),
            // No id is found only where the ids from the first on are
            // taken, as many of them as there are cache textures.
            r is None ==> forall|other: TextureId|
                FIRST_UNRESERVED_ID <= other < u32::MAX && other - FIRST_UNRESERVED_ID <= old(
                    self,
                ).a8_textures().len() + old(self).rgba8_textures().len() ==> old(self).is_taken(
                    other,
                ),
    {
        match self.generate_texture_id() {
            Some(id) => {
                match kind {
                    RenderTargetKind::Alpha => {
                        self.cache_a8_textures.insert(id, CacheTextureInfo { width, height });
                    },
                    RenderTargetKind::Color => {
                        self.cache_rgba8_textures.insert(id, CacheTextureInfo { width, height });
                    },
                }
                Some(id)
            },
            None => None,
        }
    }

    /// The size of a cache texture, if the device has one with the id.
    pub fn cache_texture(&self, id: TextureId, kind: RenderTargetKind) -> (r: Option<
        CacheTextureInfo,
    >)
        ensures
            r == match kind {
                RenderTargetKind::Alpha => if self.a8_textures().contains_key(id) {
                    Some(self.a8_textures()[id])
                } else {
                    None
                },
                RenderTargetKind::Color => if self.rgba8_textures().contains_key(id) {
                    Some(self.rgba8_textures()[id])
                } else {
                    None
                },
            },
    {
        let found = match kind {
            RenderTargetKind::Alpha => self.cache_a8_textures.get(&id),
            RenderTargetKind::Color => self.cache_rgba8_textures.get(&id),
        };
        match found {
            Some(t) => Some(*t),
            None => None,
        }
    }
}

} // verus!

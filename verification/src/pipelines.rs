//! What the pipelines are made of: the instance records that go into the
//! instance buffers, the blend and depth state of each pipeline state
//! object, and which of them a draw call uses.

use crate::device::MAX_INSTANCE_COUNT;
use crate::internal_types::ColorBits;
use crate::renderer::BlendMode;
use crate::tiling::{BlurCommand, CacheClipInstance, PrimitiveInstance};
use vstd::prelude::*;

verus! {

#[derive(Clone, Copy, Debug, PartialEq, Eq, Structural)]
pub enum Equation {
    Add,
    Sub,
    RevSub,
    Min,
    Max,
}

#[derive(Clone, Copy, Debug, PartialEq, Eq, Structural)]
pub enum BlendValue {
    SourceColor,
    SourceAlpha,
    DestColor,
    DestAlpha,
    ConstColor,
    ConstAlpha,
}

#[derive(Clone, Copy, Debug, PartialEq, Eq, Structural)]
pub enum Factor {
    Zero,
    One,
    SourceAlphaSaturated,
    ZeroPlus(BlendValue),
    OneMinus(BlendValue),
}

#[derive(Clone, Copy, Debug, PartialEq, Eq, Structural)]
pub struct BlendChannel {
    pub equation: Equation,
    pub source: Factor,
    pub destination: Factor,
}

#[derive(Clone, Copy, Debug, PartialEq, Eq, Structural)]
pub struct Blend {
    pub color: BlendChannel,
    pub alpha: BlendChannel,
}

/// How a pipeline treats the depth buffer.
#[derive(Clone, Copy, Debug, PartialEq, Eq, Structural)]
pub enum DepthState {
    /// No depth buffer is bound.
    Unused,
    /// Passes where the depth is less or equal, and writes the depth.
    LessEqualWrite,
    /// Passes where the depth is less or equal, and writes nothing.
    LessEqualTest,
    /// Never passes and writes nothing.
    Never,
}

/// The state that a pipeline state object is made with.
#[derive(Clone, Copy, Debug, PartialEq, Eq, Structural)]
pub struct PipelineDescriptor {
    pub blend: Option<Blend>,
    pub depth: DepthState,
}

pub open spec fn spec_alpha() -> Blend {
    Blend {
        color: BlendChannel {
            equation: Equation::Add,
            source: Factor::ZeroPlus(BlendValue::SourceAlpha),
            destination: Factor::OneMinus(BlendValue::SourceAlpha),
        },
        alpha: BlendChannel {
            equation: Equation::Add,
            source: Factor::One,
            destination: Factor::OneMinus(BlendValue::SourceAlpha),
        },
    }
}

pub open spec fn spec_premultiplied_alpha() -> Blend {
    Blend {
        color: BlendChannel {
            equation: Equation::Add,
            source: Factor::One,
            destination: Factor::OneMinus(BlendValue::SourceAlpha),
        },
        alpha: BlendChannel {
            equation: Equation::Add,
            source: Factor::One,
            destination: Factor::OneMinus(BlendValue::SourceAlpha),
        },
    }
}

pub open spec fn spec_subpixel() -> Blend {
    Blend {
        color: BlendChannel {
            equation: Equation::Add,
            source: Factor::ZeroPlus(BlendValue::ConstColor),
            destination: Factor::OneMinus(BlendValue::SourceColor),
        },
        alpha: BlendChannel {
            equation: Equation::Add,
            source: Factor::ZeroPlus(BlendValue::ConstColor),
            destination: Factor::OneMinus(BlendValue::SourceColor),
        },
    }
}

pub open spec fn spec_multiply() -> Blend {
    Blend {
        color: BlendChannel {
            equation: Equation::Add,
            source: Factor::Zero,
            destination: Factor::ZeroPlus(BlendValue::SourceColor),
        },
        alpha: BlendChannel {
            equation: Equation::Add,
            source: Factor::Zero,
            destination: Factor::ZeroPlus(BlendValue::SourceAlpha),
        },
    }
}

pub open spec fn spec_max() -> Blend {
    Blend {
        color: BlendChannel {
            equation: Equation::Max,
            source: Factor::One,
            destination: Factor::One,
        },
        alpha: BlendChannel {
            equation: Equation::Add,
            source: Factor::One,
            destination: Factor::One,
        },
    }
}

/// Blending by the alpha of the source.
pub fn alpha() -> (b: Blend)
    ensures
        b == spec_alpha(),
{
    Blend {
        color: BlendChannel {
            equation: Equation::Add,
            source: Factor::ZeroPlus(BlendValue::SourceAlpha),
            destination: Factor::OneMinus(BlendValue::SourceAlpha),
        },
        alpha: BlendChannel {
            equation: Equation::Add,
            source: Factor::One,
            destination: Factor::OneMinus(BlendValue::SourceAlpha),
        },
    }
}

/// Blending of a source whose colour is multiplied by its alpha already.
pub fn premultiplied_alpha() -> (b: Blend)
    ensures
        b == spec_premultiplied_alpha(),
{
    Blend {
        color: BlendChannel {
            equation: Equation::Add,
            source: Factor::One,
            destination: Factor::OneMinus(BlendValue::SourceAlpha),
        },
        alpha: BlendChannel {
            equation: Equation::Add,
            source: Factor::One,
            destination: Factor::OneMinus(BlendValue::SourceAlpha),
        },
    }
}

/// Blending of subpixel text, with the text colour as the constant colour.
pub fn subpixel() -> (b: Blend)
    ensures
        b == spec_subpixel(),
{
    Blend {
        color: BlendChannel {
            equation: Equation::Add,
            source: Factor::ZeroPlus(BlendValue::ConstColor),
            destination: Factor::OneMinus(BlendValue::SourceColor),
        },
        alpha: BlendChannel {
            equation: Equation::Add,
            source: Factor::ZeroPlus(BlendValue::ConstColor),
            destination: Factor::OneMinus(BlendValue::SourceColor),
        },
    }
}

/// Multiplies what is there by the source.
pub fn multiply() -> (b: Blend)
    ensures
        b == spec_multiply(),
{
    Blend {
        color: BlendChannel {
            equation: Equation::Add,
            source: Factor::Zero,
            destination: Factor::ZeroPlus(BlendValue::SourceColor),
        },
        alpha: BlendChannel {
            equation: Equation::Add,
            source: Factor::Zero,
            destination: Factor::ZeroPlus(BlendValue::SourceAlpha),
        },
    }
}

/// Keeps the larger of what is there and the source.
pub fn max() -> (b: Blend)
    ensures
        b == spec_max(),
{
    Blend {
        color: BlendChannel {
            equation: Equation::Max,
            source: Factor::One,
            destination: Factor::One,
        },
        alpha: BlendChannel {
            equation: Equation::Add,
            source: Factor::One,
            destination: Factor::One,
        },
    }
}

/// The blend state that the primitive pipelines have for a blend mode.
pub open spec fn prim_blend(mode: BlendMode) -> Option<Blend> {
    match mode {
        BlendMode::Alpha => Some(spec_alpha()),
        BlendMode::PremultipliedAlpha => Some(spec_premultiplied_alpha()),
        BlendMode::Subpixel(color) => Some(spec_subpixel()),
        _ => None,
    }
}

/// The blend state that the cache pipelines have for a blend mode.
pub open spec fn cache_blend(mode: BlendMode) -> Option<Blend> {
    match mode {
        BlendMode::Alpha => Some(spec_alpha()),
        _ => None,
    }
}

/// The blend state that the clip pipelines have for a blend mode.
pub open spec fn clip_blend(mode: BlendMode) -> Option<Blend> {
    match mode {
        BlendMode::Multiply => Some(spec_multiply()),
        BlendMode::Max => Some(spec_max()),
        _ => None,
    }
}

/// The state of the eight primitive pipelines: without blending, with
/// alpha, with premultiplied alpha and with subpixel blending, each first
/// with depth write and then with depth test only.
pub open spec fn spec_prim_pso_descriptors() -> Seq<PipelineDescriptor> {
    seq![
        PipelineDescriptor { blend: None, depth: DepthState::LessEqualWrite },
        PipelineDescriptor { blend: None, depth: DepthState::LessEqualTest },
        PipelineDescriptor { blend: Some(spec_alpha()), depth: DepthState::LessEqualWrite },
        PipelineDescriptor { blend: Some(spec_alpha()), depth: DepthState::LessEqualTest },
        PipelineDescriptor {
            blend: Some(spec_premultiplied_alpha()),
            depth: DepthState::LessEqualWrite,
        },
        PipelineDescriptor {
            blend: Some(spec_premultiplied_alpha()),
            depth: DepthState::LessEqualTest,
        },
        PipelineDescriptor { blend: Some(spec_subpixel()), depth: DepthState::LessEqualWrite },
        PipelineDescriptor { blend: Some(spec_subpixel()), depth: DepthState::LessEqualTest },
    ]
}

pub fn prim_pso_descriptors() -> (d: Vec<PipelineDescriptor>)
    ensures
        d@ == spec_prim_pso_descriptors(),
{
    let mut d: Vec<PipelineDescriptor> = Vec::new();
    d.push(PipelineDescriptor { blend: None, depth: DepthState::LessEqualWrite });
    d.push(PipelineDescriptor { blend: None, depth: DepthState::LessEqualTest });
    d.push(PipelineDescriptor { blend: Some(alpha()), depth: DepthState::LessEqualWrite });
    d.push(PipelineDescriptor { blend: Some(alpha()), depth: DepthState::LessEqualTest });
    d.push(
        PipelineDescriptor { blend: Some(premultiplied_alpha()), depth: DepthState::LessEqualWrite },
    );
    d.push(
        PipelineDescriptor { blend: Some(premultiplied_alpha()), depth: DepthState::LessEqualTest },
    );
    d.push(PipelineDescriptor { blend: Some(subpixel()), depth: DepthState::LessEqualWrite });
    d.push(PipelineDescriptor { blend: Some(subpixel()), depth: DepthState::LessEqualTest });
    assert(d@ =~= spec_prim_pso_descriptors());
    d
}

/// The state of the two cache pipelines: without blending, and with alpha.
pub open spec fn spec_cache_pso_descriptors() -> Seq<PipelineDescriptor> {
    seq![
        PipelineDescriptor { blend: None, depth: DepthState::Unused },
        PipelineDescriptor { blend: Some(spec_alpha()), depth: DepthState::Unused },
    ]
}

pub fn cache_pso_descriptors() -> (d: Vec<PipelineDescriptor>)
    ensures
        d@ == spec_cache_pso_descriptors(),
{
    let mut d: Vec<PipelineDescriptor> = Vec::new();
    d.push(PipelineDescriptor { blend: None, depth: DepthState::Unused });
    d.push(PipelineDescriptor { blend: Some(alpha()), depth: DepthState::Unused });
    assert(d@ =~= spec_cache_pso_descriptors());
    d
}

/// The state of the three clip pipelines: without blending, multiplying,
/// and keeping the maximum.
pub open spec fn spec_clip_pso_descriptors() -> Seq<PipelineDescriptor> {
    seq![
        PipelineDescriptor { blend: None, depth: DepthState::Unused },
        PipelineDescriptor { blend: Some(spec_multiply()), depth: DepthState::Unused },
        PipelineDescriptor { blend: Some(spec_max()), depth: DepthState::Unused },
    ]
}

pub fn clip_pso_descriptors() -> (d: Vec<PipelineDescriptor>)
    ensures
        d@ == spec_clip_pso_descriptors(),
{
    let mut d: Vec<PipelineDescriptor> = Vec::new();
    d.push(PipelineDescriptor { blend: None, depth: DepthState::Unused });
    d.push(PipelineDescriptor { blend: Some(multiply()), depth: DepthState::Unused });
    d.push(PipelineDescriptor { blend: Some(max()), depth: DepthState::Unused });
    assert(d@ =~= spec_clip_pso_descriptors());
    d
}

/// The state of the blur pipeline: it never passes the depth test.
pub fn blur_pso_descriptor() -> (d: PipelineDescriptor)
    ensures
        d == (PipelineDescriptor { blend: None, depth: DepthState::Never }),
{
    PipelineDescriptor { blend: None, depth: DepthState::Never }
}

/// The state of the two debug pipelines: alpha blending, no depth buffer.
pub fn debug_pso_descriptor() -> (d: PipelineDescriptor)
    ensures
        d == (PipelineDescriptor { blend: Some(spec_alpha()), depth: DepthState::Unused }),
{
    PipelineDescriptor { blend: Some(alpha()), depth: DepthState::Unused }
}

/// Which of the primitive pipelines draws with a blend mode, with or
/// without depth write.
pub fn prim_pso_index(blend: &BlendMode, depth_write: bool) -> (i: usize)
    ensures
        i < 8,
        spec_prim_pso_descriptors()[i as int].blend == prim_blend(*blend),
        spec_prim_pso_descriptors()[i as int].depth == if depth_write {
            DepthState::LessEqualWrite
        } else {
            DepthState::LessEqualTest
        },
{
    let pair: usize = match *blend {
        BlendMode::Alpha => 2,
        BlendMode::PremultipliedAlpha => 4,
        BlendMode::Subpixel(_) => 6,
        _ => 0,
    };
    if depth_write {
        pair
    } else {
        pair + 1
    }
}

/// Which of the cache pipelines draws with a blend mode.
pub fn cache_pso_index(blend: &BlendMode) -> (i: usize)
    ensures
        i < 2,
        spec_cache_pso_descriptors()[i as int].blend == cache_blend(*blend),
{
    match *blend {
        BlendMode::Alpha => 1,
        _ => 0,
    }
}

/// Which of the clip pipelines draws with a blend mode.
pub fn clip_pso_index(blend: &BlendMode) -> (i: usize)
    ensures
        i < 3,
        spec_clip_pso_descriptors()[i as int].blend == clip_blend(*blend),
{
    match *blend {
        BlendMode::Multiply => 1,
        BlendMode::Max => 2,
        _ => 0,
    }
}

/// The constant colour that a draw call sets for a blend mode, if it sets
/// one.
pub fn blend_value(blend: &BlendMode) -> (c: Option<ColorBits>)
    ensures
        c == match *blend {
            BlendMode::Subpixel(color) => Some(color),
            _ => None,
        },
{
    match *blend {
        BlendMode::Subpixel(color) => Some(color),
        _ => None,
    }
}

/// A primitive instance as it lies in the instance buffer.
#[derive(Clone, Copy, Debug)]
pub struct PrimitiveInstances {
    pub data0: [i32; 4],
    pub data1: [i32; 4],
}

/// A blur instance as it lies in the instance buffer.
#[derive(Clone, Copy, Debug, PartialEq, Eq, Structural)]
pub struct BlurInstances {
    pub render_task_index: i32,
    pub source_task_index: i32,
    pub direction: i32,
}

/// A clip instance as it lies in the instance buffer.
#[derive(Clone, Copy, Debug, PartialEq, Eq, Structural)]
pub struct ClipInstances {
    pub render_task_index: i32,
    pub layer_index: i32,
    pub data_index: i32,
    pub segment_index: i32,
    pub resource_address: i32,
}

/// The first four numbers of a primitive instance.
pub open spec fn first_half(instance: PrimitiveInstance) -> Seq<i32> {
    seq![
        instance.prim_address,
        instance.task_index,
        instance.clip_task_index,
        instance.layer_index,
    ]
}

/// The last four numbers of a primitive instance.
pub open spec fn second_half(instance: PrimitiveInstance) -> Seq<i32> {
    seq![instance.z_sort_index, instance.user_data0, instance.user_data1, instance.user_data2]
}

impl PrimitiveInstances {
    pub fn new() -> (p: PrimitiveInstances)
        ensures
            p.data0@ == seq![0i32, 0i32, 0i32, 0i32],
            p.data1@ == seq![0i32, 0i32, 0i32, 0i32],
    {
        let p = PrimitiveInstances { data0: [0, 0, 0, 0], data1: [0, 0, 0, 0] };
        assert(p.data0@ =~= seq![0i32, 0i32, 0i32, 0i32]);
        assert(p.data1@ =~= seq![0i32, 0i32, 0i32, 0i32]);
        p
    }

    pub fn update(&mut self, instance: &PrimitiveInstance)
        ensures
            final(self).data0@ == first_half(*instance),
            final(self).data1@ == second_half(*instance),
    {
        self.data0 = [
            instance.prim_address,
            instance.task_index,
            instance.clip_task_index,
            instance.layer_index,
        ];
        self.data1 = [
            instance.z_sort_index,
            instance.user_data0,
            instance.user_data1,
            instance.user_data2,
        ];
        assert(self.data0@ =~= first_half(*instance));
        assert(self.data1@ =~= second_half(*instance));
    }
}

impl BlurInstances {
    pub fn new() -> (b: BlurInstances)
        ensures
            b == (BlurInstances { render_task_index: 0, source_task_index: 0, direction: 0 }),
    {
        BlurInstances { render_task_index: 0, source_task_index: 0, direction: 0 }
    }

    pub fn update(&mut self, blur_command: &BlurCommand)
        ensures
            *final(self) == (BlurInstances {
                render_task_index: blur_command.task_id,
                source_task_index: blur_command.src_task_id,
                direction: blur_command.blur_direction,
            }),
    {
        self.render_task_index = blur_command.task_id;
        self.source_task_index = blur_command.src_task_id;
        self.direction = blur_command.blur_direction;
    }
}

impl ClipInstances {
    pub fn new() -> (c: ClipInstances)
        ensures
            c == (ClipInstances {
                render_task_index: 0,
                layer_index: 0,
                data_index: 0,
                segment_index: 0,
                resource_address: 0,
            }),
    {
        ClipInstances {
            render_task_index: 0,
            layer_index: 0,
            data_index: 0,
            segment_index: 0,
            resource_address: 0,
        }
    }

    pub fn update(&mut self, instance: &CacheClipInstance)
        ensures
            *final(self) == (ClipInstances {
                render_task_index: instance.task_id,
                layer_index: instance.layer_index,
                data_index: instance.address,
                segment_index: instance.segment,
                resource_address: instance.resource_address,
            }),
    {
        self.render_task_index = instance.task_id;
        self.layer_index = instance.layer_index;
        self.data_index = instance.address;
        self.segment_index = instance.segment;
        self.resource_address = instance.resource_address;
    }
}

/// Where in the upload buffer the next instances go.
pub struct UploadCursor {
    offset: usize,
}

impl UploadCursor {
    /// How many instances the upload buffer holds already.
    pub closed spec fn view(&self) -> int {
        self.offset as int
    }

    pub closed spec fn wf(&self) -> bool {
        self.offset <= MAX_INSTANCE_COUNT
    }

    pub fn new() -> (c: UploadCursor)
        ensures
            c.wf(),
            c@ == 0,
    {
        UploadCursor { offset: 0 }
    }

    pub fn offset(&self) -> (n: usize)
        ensures
            n == self@,
    {
        self.offset
    }

    pub fn reset_upload_offset(&mut self)
        ensures
            final(self).wf(),
            final(self)@ == 0,
    {
        self.offset = 0;
    }

    /// Makes room for `count` instances and says where they start; or says
    /// that the buffer cannot take them, and leaves the cursor.
    pub fn reserve(&mut self, count: usize) -> (start: Option<usize>)
        requires
            old(self).wf(),
        ensures
            final(self).wf(),
            start is Some <==> old(self)@ + count <= MAX_INSTANCE_COUNT,
            start matches Some(s) ==> s == old(self)@ && final(self)@ == old(self)@ + count,
            start is None ==> final(self)@ == old(self)@,
    {
        if count <= MAX_INSTANCE_COUNT - self.offset {
            let start = self.offset;
            self.offset = self.offset + count;
            Some(start)
        } else {
            None
        }
    }
}

/// The primitive instances as they go into the instance buffer, in order.
pub fn pack_primitive_instances(instances: &Vec<PrimitiveInstance>) -> (packed: Vec<
    PrimitiveInstances,
>)
    ensures
        packed@.len() == instances@.len(),
        forall|i: int|
            0 <= i < packed@.len() ==> (#[trigger] packed@[i]).data0@ == first_half(instances@[i])
                && packed@[i].data1@ == second_half(instances@[i]),
{
    let mut packed: Vec<PrimitiveInstances> = Vec::new();
    let mut i: usize = 0;
    while i < instances.len()
        invariant
            i <= instances@.len(),
            packed@.len() == i,
            forall|k: int|
                0 <= k < i ==> (#[trigger] packed@[k]).data0@ == first_half(instances@[k])
                    && packed@[k].data1@ == second_half(instances@[k]),
        decreases instances@.len() - i,
    {
        let mut slot = PrimitiveInstances::new();
        slot.update(&instances[i]);
        packed.push(slot);
        i += 1;
    }
    packed
}

/// The blur commands as they go into the instance buffer, in order.
pub fn pack_blur_instances(commands: &Vec<BlurCommand>) -> (packed: Vec<BlurInstances>)
    ensures
        packed@.len() == commands@.len(),
        forall|i: int|
            0 <= i < packed@.len() ==> #[trigger] packed@[i] == (BlurInstances {
                render_task_index: commands@[i].task_id,
                source_task_index: commands@[i].src_task_id,
                direction: commands@[i].blur_direction,
            }),
{
    let mut packed: Vec<BlurInstances> = Vec::new();
    let mut i: usize = 0;
    while i < commands.len()
        invariant
            i <= commands@.len(),
            packed@.len() == i,
            forall|k: int|
                0 <= k < i ==> #[trigger] packed@[k] == (BlurInstances {
                    render_task_index: commands@[k].task_id,
                    source_task_index: commands@[k].src_task_id,
                    direction: commands@[k].blur_direction,
                }),
        decreases commands@.len() - i,
    {
        let mut slot = BlurInstances::new();
        slot.update(&commands[i]);
        packed.push(slot);
        i += 1;
    }
    packed
}

/// The clip instances as they go into the instance buffer, in order.
pub fn pack_clip_instances(instances: &Vec<CacheClipInstance>) -> (packed: Vec<ClipInstances>)
    ensures
        packed@.len() == instances@.len(),
        forall|i: int|
            0 <= i < packed@.len() ==> #[trigger] packed@[i] == (ClipInstances {
                render_task_index: instances@[i].task_id,
                layer_index: instances@[i].layer_index,
                data_index: instances@[i].address,
                segment_index: instances@[i].segment,
                resource_address: instances@[i].resource_address,
            }),
{
    let mut packed: Vec<ClipInstances> = Vec::new();
    let mut i: usize = 0;
    while i < instances.len()
        invariant
            i <= instances@.len(),
            packed@.len() == i,
            forall|k: int|
                0 <= k < i ==> #[trigger] packed@[k] == (ClipInstances {
                    render_task_index: instances@[k].task_id,
                    layer_index: instances@[k].layer_index,
                    data_index: instances@[k].address,
                    segment_index: instances@[k].segment,
                    resource_address: instances@[k].resource_address,
                }),
        decreases instances@.len() - i,
    {
        let mut slot = ClipInstances::new();
        slot.update(&instances[i]);
        packed.push(slot);
        i += 1;
    }
    packed
}

} // verus!

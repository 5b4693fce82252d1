//! What the renderer decides before it talks to the device: blend modes,
//! data texture layouts, and which frame is current.

use crate::device::{ShaderError, TextureFilter};
use crate::frame_builder::{BuildError, Frame};
use crate::internal_types::ColorBits;
use std::collections::HashMap;
use vstd::prelude::*;

verus! {

pub const GPU_DATA_TEXTURE_POOL: usize = 5;

pub const MAX_VERTEX_TEXTURE_WIDTH: usize = 1024;

/// How many workers a renderer starts where it is given none.
pub const DEFAULT_WORKER_COUNT: usize = 4;

/// An error of the operating system.
#[verifier::external_type_specification]
#[verifier::external_body]
pub struct ExIoError(std::io::Error);

#[derive(Debug)]
pub enum InitError {
    Shader(ShaderError),
    Thread(std::io::Error),
}

impl From<ShaderError> for InitError {
    fn from(err: ShaderError) -> (r: Self) {
        InitError::Shader(err)
    }
}

impl vstd::std_specs::convert::FromSpecImpl<ShaderError> for InitError {
    open spec fn obeys_from_spec() -> bool {
        true
    }

    open spec fn from_spec(err: ShaderError) -> Self {
        InitError::Shader(err)
    }
}

impl From<std::io::Error> for InitError {
    fn from(err: std::io::Error) -> (r: Self) {
        InitError::Thread(err)
    }
}

impl vstd::std_specs::convert::FromSpecImpl<std::io::Error> for InitError {
    open spec fn obeys_from_spec() -> bool {
        true
    }

    open spec fn from_spec(err: std::io::Error) -> Self {
        InitError::Thread(err)
    }
}

#[derive(Debug, Copy, Clone, PartialEq, Eq, Structural)]
pub enum BlendMode {
    NoBlend,
    Alpha,
    PremultipliedAlpha,
    Multiply,
    Max,
    Min,
    /// Uses the colour of the text itself as a constant colour blend factor.
    Subpixel(ColorBits),
}

#[derive(Debug, Copy, Clone, PartialEq, Eq, Structural)]
pub enum ImageFormat {
    Invalid,
    A8,
    RGB8,
    RGBA8,
    BGRA8,
    RG8,
    RGBAF32,
}

impl ImageFormat {
    /// The bytes of one pixel; an invalid format has no pixels.
    pub open spec fn spec_bytes_per_pixel(self) -> Option<u32> {
        match self {
            ImageFormat::Invalid => None,
            ImageFormat::A8 => Some(1u32),
            ImageFormat::RGB8 => Some(3u32),
            ImageFormat::RGBA8 => Some(4u32),
            ImageFormat::BGRA8 => Some(4u32),
            ImageFormat::RG8 => Some(2u32),
            ImageFormat::RGBAF32 => Some(16u32),
        }
    }

    pub fn bytes_per_pixel(&self) -> (r: Option<u32>)
        ensures
            r == self.spec_bytes_per_pixel(),
    {
        match *self {
            ImageFormat::Invalid => None,
            ImageFormat::A8 => Some(1),
            ImageFormat::RGB8 => Some(3),
            ImageFormat::RGBA8 => Some(4),
            ImageFormat::BGRA8 => Some(4),
            ImageFormat::RG8 => Some(2),
            ImageFormat::RGBAF32 => Some(16),
        }
    }
}

/// How the items of a store lie in its data texture.
pub trait GpuStoreLayout {
    /// The bytes of one texel.
    spec fn spec_texel_size() -> int;

    fn image_format() -> ImageFormat;

    fn texture_filter() -> TextureFilter;

    fn texel_size() -> (n: usize)
        ensures
            n == Self::spec_texel_size(),
            n > 0,
    ;

    /// The width of the texture for items of `item_size` bytes, which is at
    /// least one texel.
    fn texture_width(item_size: usize) -> (w: usize)
        requires
            item_size >= Self::spec_texel_size(),
    ;
}

pub struct VertexDataTextureLayout {}

impl GpuStoreLayout for VertexDataTextureLayout {
    open spec fn spec_texel_size() -> int {
        16
    }

    fn image_format() -> (f: ImageFormat)
        ensures
            f == ImageFormat::RGBAF32,
    {
        ImageFormat::RGBAF32
    }

    fn texture_filter() -> (f: TextureFilter)
        ensures
            f == TextureFilter::Nearest,
    {
        TextureFilter::Nearest
    }

    fn texel_size() -> (n: usize) {
        16
    }

    /// The widest texture, of at most `MAX_VERTEX_TEXTURE_WIDTH` texels,
    /// that whole items fill.
    fn texture_width(item_size: usize) -> (w: usize)
        ensures
            w == MAX_VERTEX_TEXTURE_WIDTH - MAX_VERTEX_TEXTURE_WIDTH % (item_size / 16),
    {
        let texels_per_item = item_size / Self::texel_size();
        assert(0 <= 1024int % (texels_per_item as int) <= 1024) by (nonlinear_arith)
            requires
                texels_per_item > 0,
        ;
        MAX_VERTEX_TEXTURE_WIDTH - (MAX_VERTEX_TEXTURE_WIDTH % texels_per_item)
    }
}

pub struct GradientDataTextureLayout {}

impl GpuStoreLayout for GradientDataTextureLayout {
    open spec fn spec_texel_size() -> int {
        4
    }

    fn image_format() -> (f: ImageFormat)
        ensures
            f == ImageFormat::RGBA8,
    {
        ImageFormat::RGBA8
    }

    fn texture_filter() -> (f: TextureFilter)
        ensures
            f == TextureFilter::Linear,
    {
        TextureFilter::Linear
    }

    fn texel_size() -> (n: usize) {
        4
    }

    /// One item fills one row.
    fn texture_width(item_size: usize) -> (w: usize)
        ensures
            w == item_size / 4,
    {
        item_size / Self::texel_size()
    }
}

/// The length that `len` items are padded to: the least multiple of
/// `items_per_row` that holds them.
pub open spec fn padded_len(len: int, items_per_row: int) -> int {
    if len % items_per_row == 0 {
        len
    } else {
        len + items_per_row - len % items_per_row
    }
}

/// Fills the last row of a data texture: appends `filler` until the number
/// of items is a multiple of `items_per_row`, and returns the number of
/// rows. The items that were there stay.
pub fn pad_to_rows<T: Copy>(data: &mut Vec<T>, items_per_row: usize, filler: T) -> (height: usize)
    requires
        items_per_row > 0,
        padded_len(old(data)@.len() as int, items_per_row as int) <= usize::MAX,
    ensures
        final(data)@.len() == padded_len(old(data)@.len() as int, items_per_row as int),
        final(data)@.subrange(0, old(data)@.len() as int) == old(data)@,
        forall|i: int| old(data)@.len() <= i < final(data)@.len() ==> final(data)@[i] == filler,
        height * items_per_row == final(data)@.len(),
{
    let ghost before = data@;
    let ghost target = padded_len(before.len() as int, items_per_row as int);
    assert(target % (items_per_row as int) == 0 && before.len() <= target < before.len()
        + items_per_row) by (nonlinear_arith)
        requires
            items_per_row > 0,
            before.len() >= 0,
            target == padded_len(before.len() as int, items_per_row as int),
    ;
    assert(before.subrange(0, before.len() as int) =~= before);
    while data.len() % items_per_row != 0
        invariant
            items_per_row > 0,
            before.len() <= data@.len() <= target,
            target <= usize::MAX,
            target % (items_per_row as int) == 0,
            target < before.len() + items_per_row,
            data@.subrange(0, before.len() as int) == before,
            forall|i: int| before.len() <= i < data@.len() ==> data@[i] == filler,
        decreases target - data@.len(),
    {
        let ghost prev = data@;
        data.push(filler);
        assert(data@.subrange(0, before.len() as int) =~= prev.subrange(0, before.len() as int));
    }
    assert(data@.len() == target) by (nonlinear_arith)
        requires
            items_per_row > 0,
            before.len() <= data@.len() <= target,
            target % (items_per_row as int) == 0,
            (data@.len() as int) % (items_per_row as int) == 0,
            target < before.len() + items_per_row,
    ;
    let height = data.len() / items_per_row;
    assert(height * items_per_row == data@.len()) by (nonlinear_arith)
        requires
            items_per_row > 0,
            (data@.len() as int) % (items_per_row as int) == 0,
            height == (data@.len() as int) / (items_per_row as int),
    ;
    height
}

/// The largest texture that the renderer asks for: what the device can do,
/// or less where less is wanted.
pub fn effective_max_texture_size(device_max: u32, wanted: Option<u32>) -> (size: u32)
    ensures
        size == match wanted {
            Some(w) => if w < device_max {
                w
            } else {
                device_max
            },
            None => device_max,
        },
{
    match wanted {
        Some(w) => if w < device_max {
            w
        } else {
            device_max
        },
        None => device_max,
    }
}

#[derive(Debug, Copy, Clone, PartialEq, Eq, Structural)]
pub struct PipelineId(pub u32, pub u32);

#[derive(Debug, Copy, Clone, PartialEq, Eq, Structural)]
pub struct Epoch(pub u32);

/// A frame as the backend hands it over: the epoch of every pipeline in it,
/// and what was built, if the build went well.
pub struct RendererFrame {
    pub pipeline_epoch_map: Vec<(PipelineId, Epoch)>,
    pub frame: Option<Frame>,
}

/// What the backend tells the renderer.
pub enum ResultMsg {
    NewFrame(RendererFrame),
    RefreshShader(String),
}

/// What the renderer does when asked to render.
#[derive(Debug, Copy, Clone, PartialEq, Eq, Structural)]
pub enum RenderAction {
    /// No frame has arrived yet.
    NoFrame,
    /// The current frame holds nothing that was built.
    NothingBuilt,
    /// The target is cleared to `clear`, if there is a colour, and the
    /// frame is drawn.
    Draw { clear: Option<ColorBits> },
}

/// The number under which the epoch of a pipeline is kept.
pub open spec fn epoch_key(id: PipelineId) -> u64 {
    (id.0 as u64 * 0x1_0000_0000 + id.1 as u64) as u64
}

/// Two pipelines with one key are one pipeline.
pub proof fn lemma_epoch_key_is_injective(a: PipelineId, b: PipelineId)
    requires
        epoch_key(a) == epoch_key(b),
    ensures
        a == b,
{
}

/// The epochs after the first `n` pairs were recorded, later pairs over
/// earlier ones.
pub open spec fn epochs_after(
    epochs: Map<u64, Epoch>,
    pairs: Seq<(PipelineId, Epoch)>,
    n: int,
) -> Map<u64, Epoch>
    decreases n,
{
    if n <= 0 || n > pairs.len() {
        epochs
    } else {
        epochs_after(epochs, pairs, n - 1).insert(epoch_key(pairs[n - 1].0), pairs[n - 1].1)
    }
}

/// What the backend hands over for one scene: what was built of it, or why
/// nothing was, and the epochs of its pipelines.
pub struct BuildOutcome {
    pub built: Result<Frame, BuildError>,
    pub pipeline_epoch_map: Vec<(PipelineId, Epoch)>,
}

/// The state of a renderer as contracts see it.
pub ghost struct RendererModel {
    pub frame: Option<RendererFrame>,
    pub epochs: Map<u64, Epoch>,
}

/// The state after one outcome was taken: what was built becomes the
/// current frame and its epochs are recorded; a build that failed changes
/// nothing.
pub open spec fn presented(m: RendererModel, outcome: BuildOutcome) -> RendererModel {
    match outcome.built {
        Ok(frame) => RendererModel {
            frame: Some(
                RendererFrame { pipeline_epoch_map: outcome.pipeline_epoch_map, frame: Some(frame) },
            ),
            epochs: epochs_after(
                m.epochs,
                outcome.pipeline_epoch_map@,
                outcome.pipeline_epoch_map@.len() as int,
            ),
        },
        Err(_) => m,
    }
}

/// The state after the first `n` outcomes were taken, in order.
pub open spec fn presented_upto(m: RendererModel, outcomes: Seq<BuildOutcome>, n: int) -> RendererModel
    decreases n,
{
    if n <= 0 || n > outcomes.len() {
        m
    } else {
        presented(presented_upto(m, outcomes, n - 1), outcomes[n - 1])
    }
}

/// The errors of the builds that failed among the first `n` outcomes, in
/// order.
pub open spec fn failures_upto(outcomes: Seq<BuildOutcome>, n: int) -> Seq<BuildError>
    decreases n,
{
    if n <= 0 || n > outcomes.len() {
        Seq::empty()
    } else {
        match outcomes[n - 1].built {
            Ok(_) => failures_upto(outcomes, n - 1),
            Err(e) => failures_upto(outcomes, n - 1).push(e),
        }
    }
}

/// Builds that failed leave the current frame and the epochs as they are.
pub proof fn lemma_failed_builds_leave_the_frame(
    m: RendererModel,
    outcomes: Seq<BuildOutcome>,
    n: int,
)
    requires
        0 <= n <= outcomes.len(),
        forall|i: int| 0 <= i < n ==> (#[trigger] outcomes[i]).built is Err,
    ensures
        presented_upto(m, outcomes, n) == m,
    decreases n,
{
    if n > 0 {
        lemma_failed_builds_leave_the_frame(m, outcomes, n - 1);
    }
}

/// Which frame is current, and the latest epoch of every pipeline seen.
pub struct RendererState {
    current_frame: Option<RendererFrame>,
    pipeline_epoch_map: HashMap<u64, Epoch>,
}

impl RendererState {
    pub closed spec fn current_frame(&self) -> Option<RendererFrame> {
        self.current_frame
    }

    /// The latest epoch of each pipeline, under the pipeline's key.
    pub closed spec fn epochs(&self) -> Map<u64, Epoch> {
        self.pipeline_epoch_map@
    }

    pub open spec fn view(&self) -> RendererModel {
        RendererModel { frame: self.current_frame(), epochs: self.epochs() }
    }

    pub fn new() -> (s: RendererState)
        ensures
            s.current_frame() is None,
            s.epochs() == Map::<u64, Epoch>::empty(),
    {
        RendererState { current_frame: None, pipeline_epoch_map: HashMap::new() }
    }

    pub fn has_frame(&self) -> (b: bool)
        ensures
            b == self.current_frame() is Some,
    {
        self.current_frame.is_some()
    }

    /// What was built of the current frame, if there is a current frame and
    /// its build went well.
    pub fn frame(&self) -> (f: Option<&Frame>)
        ensures
            match self.current_frame() {
                Some(current) => match current.frame {
                    Some(frame) => f == Some(&frame),
                    None => f is None,
                },
                None => f is None,
            },
    {
        match &self.current_frame {
            Some(current) => match &current.frame {
                Some(frame) => Some(frame),
                None => None,
            },
            None => None,
        }
    }

    /// The latest epoch of a pipeline, if one was seen.
    pub fn epoch(&self, id: PipelineId) -> (e: Option<Epoch>)
        ensures
            e == if self.epochs().contains_key(epoch_key(id)) {
                Some(self.epochs()[epoch_key(id)])
            } else {
                None
            },
    {
        let key: u64 = id.0 as u64 * 0x1_0000_0000 + id.1 as u64;
        match self.pipeline_epoch_map.get(&key) {
            Some(e) => Some(*e),
            None => None,
        }
    }

    /// Takes one message of the backend. A new frame becomes the current
    /// frame, and the epochs of its pipelines are recorded. Any other
    /// message changes nothing.
    pub fn accept(&mut self, msg: ResultMsg)
        ensures
            match msg {
                ResultMsg::NewFrame(frame) => final(self).current_frame() == Some(frame) && final(self).epochs() == epochs_after(
                    old(self).epochs(),
                    frame.pipeline_epoch_map@,
                    frame.pipeline_epoch_map@.len() as int,
                ),
                ResultMsg::RefreshShader(path) => final(self).current_frame() == old(self).current_frame() && final(self).epochs() == old(self).epochs(),
            },
    {
        match msg {
            ResultMsg::NewFrame(frame) => {
                let ghost before = self.pipeline_epoch_map@;
                let mut i: usize = 0;
                while i < frame.pipeline_epoch_map.len()
                    invariant
                        i <= frame.pipeline_epoch_map@.len(),
                        self.current_frame == old(self).current_frame,
                        before == old(self).pipeline_epoch_map@,
                        self.pipeline_epoch_map@ == epochs_after(
                            before,
                            frame.pipeline_epoch_map@,
                            i as int,
                        ),
                    decreases frame.pipeline_epoch_map@.len() - i,
                {
                    let (id, epoch) = frame.pipeline_epoch_map[i];
                    let key: u64 = id.0 as u64 * 0x1_0000_0000 + id.1 as u64;
                    self.pipeline_epoch_map.insert(key, epoch);
                    i += 1;
                }
                self.current_frame = Some(frame);
            },
            ResultMsg::RefreshShader(_path) => {},
        }
    }

    /// Takes the outcome of a build. What was built becomes the current
    /// frame, with the given epochs; a build that failed leaves the current
    /// frame and the epochs as they are, and its error is handed back.
    pub fn present(
        &mut self,
        built: Result<Frame, BuildError>,
        pipeline_epoch_map: Vec<(PipelineId, Epoch)>,
    ) -> (failure: Option<BuildError>)
        ensures
            match built {
                Ok(frame) => failure is None && final(self).current_frame() == Some(
                    RendererFrame { pipeline_epoch_map, frame: Some(frame) },
                ) && final(self).epochs() == epochs_after(
                    old(self).epochs(),
                    pipeline_epoch_map@,
                    pipeline_epoch_map@.len() as int,
                ),
                Err(e) => failure == Some(e) && final(self).current_frame() == old(self).current_frame() && final(self).epochs() == old(self).epochs(),
            },
    {
        match built {
            Ok(frame) => {
                self.accept(ResultMsg::NewFrame(RendererFrame { pipeline_epoch_map, frame: Some(frame) }));
                None
            },
            Err(e) => Some(e),
        }
    }

    /// Takes what the backend has handed over since the last call, in
    /// order: the newest frame that was built becomes the current one. The
    /// errors of the builds that failed are handed back; where every build
    /// failed, or nothing was handed over, the current frame and the epochs
    /// stay as they are.
    pub fn update(&mut self, outcomes: Vec<BuildOutcome>) -> (failures: Vec<BuildError>)
        ensures
            final(self)@ == presented_upto(old(self)@, outcomes@, outcomes@.len() as int),
            failures@ == failures_upto(outcomes@, outcomes@.len() as int),
            (forall|i: int| 0 <= i < outcomes@.len() ==> (#[trigger] outcomes@[i]).built is Err)
                ==> final(self).current_frame() == old(self).current_frame()
                && final(self).epochs() == old(self).epochs(),
    {
        let ghost all = outcomes@;
        let ghost start = self@;
        let mut rest = outcomes;
        let mut failures: Vec<BuildError> = Vec::new();
        let ghost mut taken: int = 0;
        while rest.len() > 0
            invariant
                0 <= taken <= all.len(),
                rest@ == all.subrange(taken, all.len() as int),
                self@ == presented_upto(start, all, taken),
                failures@ == failures_upto(all, taken),
            decreases rest@.len(),
        {
            let outcome = rest.remove(0);
            assert(outcome == all[taken]);
            let BuildOutcome { built, pipeline_epoch_map } = outcome;
            match self.present(built, pipeline_epoch_map) {
                Some(e) => {
                    failures.push(e);
                },
                None => {},
            }
            proof {
                assert(rest@ =~= all.subrange(taken + 1, all.len() as int));
                taken = taken + 1;
            }
        }
        proof {
            if forall|i: int| 0 <= i < all.len() ==> (#[trigger] all[i]).built is Err {
                lemma_failed_builds_leave_the_frame(start, all, all.len() as int);
            }
        }
        failures
    }

    /// What there is to do when the renderer is asked to render.
    pub fn render_action(&self) -> (action: RenderAction)
        ensures
            action == match self.current_frame() {
                None => RenderAction::NoFrame,
                Some(current) => match current.frame {
                    None => RenderAction::NothingBuilt,
                    Some(frame) => RenderAction::Draw { clear: frame.background_color },
                },
            },
    {
        match &self.current_frame {
            None => RenderAction::NoFrame,
            Some(current) => match &current.frame {
                None => RenderAction::NothingBuilt,
                Some(frame) => RenderAction::Draw { clear: frame.background_color },
            },
        }
    }

    /// Whether the current frame has nothing to draw, so that clearing the
    /// target is all there is to do.
    pub fn frame_is_empty(frame: &Frame) -> (b: bool)
        ensures
            b == (frame.passes@.len() == 0),
    {
        frame.passes.len() == 0
    }
}

} // verus!

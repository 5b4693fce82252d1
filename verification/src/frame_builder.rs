//! The frame builder: from a display list to the tasks, passes and batches
//! of one frame.
//!
//! A build first checks that the list is well nested. It then walks the list
//! in paint order and keeps the primitives that can be seen; gives each of
//! them a block in the GPU cache, and the blur and mask tasks it needs; adds
//! the task that composes the frame, which reads from all of those; and
//! batches the primitives in paint order. A primitive for which the GPU
//! cache has no room is dropped from this frame, as are those after it.

use crate::clip_scroll_tree::{
    combined_clip,
    world_rect,
    ClipScrollNode,
    ClipScrollNodeId,
    ClipScrollTree,
};
use crate::geometry::{clamp_to_i32, clamped_add, DevicePoint, DeviceRect};
use crate::gpu_cache::{CacheLocation, GpuBlock, GpuCache, GpuCacheHandle, GpuCacheModel};
use crate::internal_types::{BatchTextures, ColorBits, SourceTexture};
use crate::prim_store::{PrimitiveIndex, PrimitiveKind, PrimitiveMetadata, PrimitiveStore};
use crate::render_task::{
    ids_to_ints,
    pass_index,
    pass_members,
    RenderPass,
    RenderTaskGraph,
    RenderTaskId,
    RenderTaskKind,
    RenderTaskLocation,
    RenderTaskModel,
    RenderTaskPayload,
};
use crate::renderer::BlendMode;
use crate::tiling::{
    batch_after,
    keys_after,
    select_any,
    select_ordered,
    AlphaBatchKind,
    BatchItem,
    BatchKey,
    Batcher,
    BlurCommand,
    CacheClipInstance,
    PrimitiveInstance,
};
use vstd::prelude::*;

verus! {

/// What a display list says of one primitive.
#[derive(Clone, Copy, Debug, PartialEq, Eq, Structural)]
pub struct PrimitiveInfo {
    pub kind: PrimitiveKind,
    pub rect: DeviceRect,
    pub clip_rect: DeviceRect,
    pub is_opaque: bool,
    pub blur_radius: u32,
    pub texture: SourceTexture,
    pub gpu_data: GpuBlock,
}

/// One paint command.
#[derive(Clone, Copy, Debug, PartialEq, Eq, Structural)]
pub enum DisplayItem {
    /// Opens a stacking context. What follows is placed relative to the
    /// lower corner of `bounds`, and skipped if `bounds` cannot be seen.
    PushStackingContext { bounds: DeviceRect },
    PopStackingContext,
    /// What follows lies in the space of `node` and is cut by its clips.
    PushClip { node: ClipScrollNodeId },
    PopClip,
    Draw(PrimitiveInfo),
}

#[derive(Clone, Copy, Debug, PartialEq, Eq, Structural)]
pub enum BuildError {
    /// A pop without the push that it closes.
    UnbalancedPop,
    /// A push that nothing closes.
    UnclosedPush,
    /// A clip names a node that the tree does not hold.
    InvalidNode,
}

/// What is open at a point of the walk.
#[derive(Clone, Copy, Debug, PartialEq, Eq, Structural)]
pub struct Scope {
    pub is_clip: bool,
    pub culled: bool,
    pub node: usize,
    pub origin: DevicePoint,
}

/// A primitive that can be seen: which primitive of the scene it is, where
/// on screen it lies, in whose space, behind which mask, and as which item
/// of the display list.
#[derive(Clone, Copy, Debug, PartialEq, Eq, Structural)]
pub struct VisiblePrimitive {
    pub info: PrimitiveInfo,
    pub prim: usize,
    pub node: usize,
    pub bounds: DeviceRect,
    pub mask: Option<usize>,
    pub order: usize,
}

/// The open scopes after the first `n` items, innermost last, each as
/// whether it is a clip; or the first fault in the nesting.
pub open spec fn open_scopes(items: Seq<DisplayItem>, tree_len: int, n: int) -> Result<
    Seq<bool>,
    BuildError,
>
    decreases n,
{
    if n <= 0 || n > items.len() {
        Ok(Seq::empty())
    } else {
        match open_scopes(items, tree_len, n - 1) {
            Err(e) => Err(e),
            Ok(open) => match items[n - 1] {
                DisplayItem::PushStackingContext { bounds } => Ok(open.push(false)),
                DisplayItem::PushClip { node } => if node.0 < tree_len {
                    Ok(open.push(true))
                } else {
                    Err(BuildError::InvalidNode)
                },
                DisplayItem::PopStackingContext => if open.len() > 0 && !open.last() {
                    Ok(open.drop_last())
                } else {
                    Err(BuildError::UnbalancedPop)
                },
                DisplayItem::PopClip => if open.len() > 0 && open.last() {
                    Ok(open.drop_last())
                } else {
                    Err(BuildError::UnbalancedPop)
                },
                DisplayItem::Draw(info) => Ok(open),
            },
        }
    }
}

/// What is wrong with the nesting of a display list, if anything.
pub open spec fn structure_error(items: Seq<DisplayItem>, tree_len: int) -> Option<BuildError> {
    match open_scopes(items, tree_len, items.len() as int) {
        Err(e) => Some(e),
        Ok(open) => if open.len() > 0 {
            Some(BuildError::UnclosedPush)
        } else {
            None
        },
    }
}

/// Checks that every pop closes the push before it, that every push is
/// closed, and that every clip names a node of a tree of `tree_len` nodes.
pub fn check_structure(items: &Vec<DisplayItem>, tree_len: usize) -> (r: Result<(), BuildError>)
    ensures
        r is Ok <==> structure_error(items@, tree_len as int) is None,
        r matches Err(e) ==> structure_error(items@, tree_len as int) == Some(e),
{
    let mut open: Vec<bool> = Vec::new();
    let mut n: usize = 0;
    while n < items.len()
        invariant
            n <= items@.len(),
            open_scopes(items@, tree_len as int, n as int) == Ok::<Seq<bool>, BuildError>(open@),
        decreases items@.len() - n,
    {
        let ghost before = open@;
        match items[n] {
            DisplayItem::PushStackingContext { bounds } => {
                open.push(false);
            },
            DisplayItem::PushClip { node } => {
                if node.0 < tree_len {
                    open.push(true);
                } else {
                    proof {
                        lemma_fault_stays(items@, tree_len as int, n + 1, items@.len() as int);
                    }
                    return Err(BuildError::InvalidNode);
                }
            },
            DisplayItem::PopStackingContext => {
                if open.len() > 0 && !open[open.len() - 1] {
                    open.pop();
                    assert(open@ == before.drop_last());
                } else {
                    proof {
                        lemma_fault_stays(items@, tree_len as int, n + 1, items@.len() as int);
                    }
                    return Err(BuildError::UnbalancedPop);
                }
            },
            DisplayItem::PopClip => {
                if open.len() > 0 && open[open.len() - 1] {
                    open.pop();
                    assert(open@ == before.drop_last());
                } else {
                    proof {
                        lemma_fault_stays(items@, tree_len as int, n + 1, items@.len() as int);
                    }
                    return Err(BuildError::UnbalancedPop);
                }
            },
            DisplayItem::Draw(info) => {},
        }
        n += 1;
    }
    if open.len() > 0 {
        Err(BuildError::UnclosedPush)
    } else {
        Ok(())
    }
}

/// The first fault is the one that is reported, whatever follows it.
proof fn lemma_fault_stays(items: Seq<DisplayItem>, tree_len: int, at: int, n: int)
    requires
        0 <= at <= n <= items.len(),
        open_scopes(items, tree_len, at) is Err,
    ensures
        open_scopes(items, tree_len, n) == open_scopes(items, tree_len, at),
    decreases n - at,
{
    if at < n {
        lemma_fault_stays(items, tree_len, at, n - 1);
    }
}

/// The scope that holds where nothing is open.
pub open spec fn outermost() -> Scope {
    Scope { is_clip: false, culled: false, node: 0, origin: DevicePoint { x: 0, y: 0 } }
}

/// The innermost open scope.
pub open spec fn current(scopes: Seq<Scope>) -> Scope {
    if scopes.len() > 0 {
        scopes.last()
    } else {
        outermost()
    }
}

/// Where a box given relative to the scope's origin lies on screen, as far
/// as it can be seen through the clips of the scope's node and `viewport`.
pub open spec fn seen_through(
    nodes: Seq<ClipScrollNode>,
    scope: Scope,
    viewport: DeviceRect,
    rect: DeviceRect,
) -> DeviceRect {
    world_rect(
        nodes,
        scope.node as int,
        rect.spec_translate(scope.origin.x as int, scope.origin.y as int),
    ).spec_intersection(viewport)
}

/// The scopes after one more item.
pub open spec fn scopes_step(
    nodes: Seq<ClipScrollNode>,
    viewport: DeviceRect,
    scopes: Seq<Scope>,
    item: DisplayItem,
) -> Seq<Scope> {
    let cur = current(scopes);
    match item {
        DisplayItem::PushStackingContext { bounds } => scopes.push(
            Scope {
                is_clip: false,
                culled: cur.culled || seen_through(nodes, cur, viewport, bounds).spec_is_empty(),
                node: cur.node,
                origin: DevicePoint {
                    x: clamp_to_i32(cur.origin.x + bounds.x0) as i32,
                    y: clamp_to_i32(cur.origin.y + bounds.y0) as i32,
                },
            },
        ),
        DisplayItem::PushClip { node } => scopes.push(
            if node.0 < nodes.len() {
                Scope { is_clip: true, culled: cur.culled, node: node.0, origin: cur.origin }
            } else {
                Scope { is_clip: true, culled: true, node: cur.node, origin: cur.origin }
            },
        ),
        DisplayItem::PopStackingContext => if scopes.len() > 0 {
            scopes.drop_last()
        } else {
            scopes
        },
        DisplayItem::PopClip => if scopes.len() > 0 {
            scopes.drop_last()
        } else {
            scopes
        },
        DisplayItem::Draw(info) => scopes,
    }
}

/// The open scopes after the first `n` items, innermost last.
pub open spec fn scopes_after(
    nodes: Seq<ClipScrollNode>,
    viewport: DeviceRect,
    items: Seq<DisplayItem>,
    n: int,
) -> Seq<Scope>
    decreases n,
{
    if n <= 0 || n > items.len() {
        Seq::empty()
    } else {
        scopes_step(nodes, viewport, scopes_after(nodes, viewport, items, n - 1), items[n - 1])
    }
}

/// How many of the first `n` items draw a primitive.
pub open spec fn draws_before(items: Seq<DisplayItem>, n: int) -> int
    decreases n,
{
    if n <= 0 || n > items.len() {
        0
    } else {
        draws_before(items, n - 1) + if items[n - 1] is Draw {
            1int
        } else {
            0int
        }
    }
}

/// The primitive that item `at` draws, the `prim`-th of the scene, if it can
/// be seen from `scope`: it is cut to its own clip box and to what the scope
/// lets through.
pub open spec fn seen_primitive(
    nodes: Seq<ClipScrollNode>,
    viewport: DeviceRect,
    scope: Scope,
    item: DisplayItem,
    at: int,
    prim: int,
) -> Option<VisiblePrimitive> {
    match item {
        DisplayItem::Draw(info) => {
            let bounds = seen_through(
                nodes,
                scope,
                viewport,
                info.rect.spec_intersection(info.clip_rect),
            );
            if scope.culled || bounds.spec_is_empty() {
                None
            } else {
                Some(
                    VisiblePrimitive {
                        info,
                        prim: prim as usize,
                        node: scope.node,
                        bounds,
                        mask: combined_clip(nodes, scope.node as int).mask,
                        order: at as usize,
                    },
                )
            }
        },
        _ => None,
    }
}

/// The primitives among the first `n` items that can be seen, in paint
/// order.
pub open spec fn visible_primitives(
    nodes: Seq<ClipScrollNode>,
    viewport: DeviceRect,
    items: Seq<DisplayItem>,
    n: int,
) -> Seq<VisiblePrimitive>
    decreases n,
{
    if n <= 0 || n > items.len() {
        Seq::empty()
    } else {
        let before = visible_primitives(nodes, viewport, items, n - 1);
        match seen_primitive(
            nodes,
            viewport,
            current(scopes_after(nodes, viewport, items, n - 1)),
            items[n - 1],
            n - 1,
            draws_before(items, n - 1),
        ) {
            Some(v) => before.push(v),
            None => before,
        }
    }
}

/// Every open scope names a node of the tree.
proof fn lemma_scopes_name_nodes(
    nodes: Seq<ClipScrollNode>,
    viewport: DeviceRect,
    items: Seq<DisplayItem>,
    n: int,
)
    requires
        nodes.len() > 0,
        0 <= n <= items.len(),
    ensures
        current(scopes_after(nodes, viewport, items, n)).node < nodes.len(),
        forall|k: int|
            0 <= k < scopes_after(nodes, viewport, items, n).len() ==> (#[trigger] scopes_after(
                nodes,
                viewport,
                items,
                n,
            )[k]).node < nodes.len(),
    decreases n,
{
    if n > 0 {
        lemma_scopes_name_nodes(nodes, viewport, items, n - 1);
    }
}

/// Walks the display list in paint order and keeps the primitives that can
/// be seen. A stacking context whose bounds cannot be seen is skipped with
/// all that it holds; so is a primitive that is empty once it is cut to its
/// clips and to the viewport.
pub fn cull(items: &Vec<DisplayItem>, tree: &ClipScrollTree, viewport: DeviceRect) -> (visible: Vec<
    VisiblePrimitive,
>)
    requires
        tree.wf(),
    ensures
        visible@ == visible_primitives(tree@, viewport, items@, items@.len() as int),
{
    proof {
        tree.lemma_wf();
    }
    let mut scopes: Vec<Scope> = Vec::new();
    let mut visible: Vec<VisiblePrimitive> = Vec::new();
    let mut prim: usize = 0;
    let mut n: usize = 0;
    while n < items.len()
        invariant
            n <= items@.len(),
            tree.wf(),
            tree@.len() > 0,
            prim == draws_before(items@, n as int),
            prim <= n,
            scopes@ == scopes_after(tree@, viewport, items@, n as int),
            visible@ == visible_primitives(tree@, viewport, items@, n as int),
        decreases items@.len() - n,
    {
        proof {
            lemma_scopes_name_nodes(tree@, viewport, items@, n as int);
        }
        let cur = if scopes.len() > 0 {
            scopes[scopes.len() - 1]
        } else {
            Scope { is_clip: false, culled: false, node: 0, origin: DevicePoint { x: 0, y: 0 } }
        };
        assert(cur == current(scopes@));
        let ghost before = scopes@;
        match items[n] {
            DisplayItem::PushStackingContext { bounds } => {
                let seen = tree.get_world_rect(
                    ClipScrollNodeId(cur.node),
                    bounds.translate(cur.origin),
                ).intersection(&viewport);
                scopes.push(
                    Scope {
                        is_clip: false,
                        culled: cur.culled || seen.is_empty(),
                        node: cur.node,
                        origin: DevicePoint {
                            x: clamped_add(cur.origin.x, bounds.x0),
                            y: clamped_add(cur.origin.y, bounds.y0),
                        },
                    },
                );
            },
            DisplayItem::PushClip { node } => {
                if tree.contains(node) {
                    scopes.push(
                        Scope {
                            is_clip: true,
                            culled: cur.culled,
                            node: node.0,
                            origin: cur.origin,
                        },
                    );
                } else {
                    scopes.push(
                        Scope { is_clip: true, culled: true, node: cur.node, origin: cur.origin },
                    );
                }
            },
            DisplayItem::PopStackingContext => {
                if scopes.len() > 0 {
                    scopes.pop();
                    assert(scopes@ == before.drop_last());
                }
            },
            DisplayItem::PopClip => {
                if scopes.len() > 0 {
                    scopes.pop();
                    assert(scopes@ == before.drop_last());
                }
            },
            DisplayItem::Draw(info) => {
                if !cur.culled {
                    let bounds = tree.get_world_rect(
                        ClipScrollNodeId(cur.node),
                        info.rect.intersection(&info.clip_rect).translate(cur.origin),
                    ).intersection(&viewport);
                    if !bounds.is_empty() {
                        let chain = tree.get_combined_clip(ClipScrollNodeId(cur.node));
                        visible.push(
                            VisiblePrimitive {
                                info,
                                prim,
                                node: cur.node,
                                bounds,
                                mask: chain.mask,
                                order: n,
                            },
                        );
                    }
                }
                prim += 1;
            },
        }
        n += 1;
    }
    visible
}

/// What the store holds of the primitives that the first `n` items draw,
/// before any of them has a block in the GPU cache.
pub open spec fn initial_store(items: Seq<DisplayItem>, n: int) -> Seq<PrimitiveMetadata>
    decreases n,
{
    if n <= 0 || n > items.len() {
        Seq::empty()
    } else {
        match items[n - 1] {
            DisplayItem::Draw(info) => initial_store(items, n - 1).push(
                PrimitiveMetadata {
                    kind: info.kind,
                    local_rect: info.rect,
                    local_clip_rect: info.clip_rect,
                    is_opaque: info.is_opaque,
                    blur_radius: info.blur_radius,
                    texture: info.texture,
                    gpu_data: info.gpu_data,
                    gpu_handle: GpuCacheHandle { location: None },
                },
            ),
            _ => initial_store(items, n - 1),
        }
    }
}

/// The store has one entry for each primitive that is drawn.
pub proof fn lemma_store_holds_every_primitive(items: Seq<DisplayItem>, n: int)
    requires
        0 <= n <= items.len(),
    ensures
        initial_store(items, n).len() == draws_before(items, n),
        0 <= draws_before(items, n) <= n,
    decreases n,
{
    if n > 0 {
        lemma_store_holds_every_primitive(items, n - 1);
    }
}

/// Every visible primitive is one of the primitives that are drawn.
pub proof fn lemma_visible_primitives_are_drawn(
    nodes: Seq<ClipScrollNode>,
    viewport: DeviceRect,
    items: Seq<DisplayItem>,
    n: int,
)
    requires
        0 <= n <= items.len(),
    ensures
        forall|k: int|
            0 <= k < visible_primitives(nodes, viewport, items, n).len() ==> (
            #[trigger] visible_primitives(nodes, viewport, items, n)[k]).prim < draws_before(
                items,
                n,
            ),
    decreases n,
{
    if n > 0 {
        lemma_visible_primitives_are_drawn(nodes, viewport, items, n - 1);
        lemma_store_holds_every_primitive(items, n - 1);
    }
}

/// Puts the primitives of a display list into a new store, in paint order.
pub fn flatten(items: &Vec<DisplayItem>) -> (store: PrimitiveStore)
    ensures
        store@ == initial_store(items@, items@.len() as int),
{
    let mut store = PrimitiveStore::new();
    let mut n: usize = 0;
    assert(store@ =~= initial_store(items@, 0));
    while n < items.len()
        invariant
            n <= items@.len(),
            store@ == initial_store(items@, n as int),
        decreases items@.len() - n,
    {
        match items[n] {
            DisplayItem::Draw(info) => {
                store.add_metadata(
                    PrimitiveMetadata {
                        kind: info.kind,
                        local_rect: info.rect,
                        local_clip_rect: info.clip_rect,
                        is_opaque: info.is_opaque,
                        blur_radius: info.blur_radius,
                        texture: info.texture,
                        gpu_data: info.gpu_data,
                        gpu_handle: GpuCacheHandle::new(),
                    },
                );
            },
            _ => {},
        }
        n += 1;
    }
    store
}

/// What a primitive needs to be batched, but for the task that it is drawn
/// into.
#[derive(Clone, Copy, Debug, PartialEq, Eq, Structural)]
pub struct DrawItem {
    pub key: BatchKey,
    pub bounds: DeviceRect,
    pub prim_address: i32,
    pub clip_task_index: i32,
    pub layer_index: i32,
    pub z_sort_index: i32,
    pub prim_index: i32,
}

/// What the primitives that are drawn leave behind.
pub ghost struct Prepared {
    pub tasks: Seq<RenderTaskModel>,
    pub blurs: Seq<BlurCommand>,
    pub clips: Seq<CacheClipInstance>,
    pub draws: Seq<DrawItem>,
}

/// Where the state stands after some visible primitives were looked at.
pub ghost struct Assigned {
    pub prepared: Prepared,
    pub blocks: Seq<GpuBlock>,
    pub dirty: Set<int>,
    pub store: Seq<PrimitiveMetadata>,
    pub dropped: int,
}

/// The resources of the primitives that are drawn, as they are made.
pub struct Resources {
    pub graph: RenderTaskGraph,
    pub blurs: Vec<BlurCommand>,
    pub clips: Vec<CacheClipInstance>,
    pub draws: Vec<DrawItem>,
    pub dropped: usize,
}

/// The batches of a frame as contracts see them.
pub ghost struct Batched {
    pub opaque_keys: Seq<BatchKey>,
    pub opaque_items: Seq<BatchItem>,
    pub alpha_keys: Seq<BatchKey>,
    pub alpha_items: Seq<BatchItem>,
}

/// A number as a shader index: itself, or the largest index there is.
pub fn to_index(v: usize) -> (r: i32)
    ensures
        r as int == clamp_to_i32(v as int),
{
    if v > i32::MAX as usize {
        i32::MAX
    } else {
        v as i32
    }
}

/// The shader that draws a kind of primitive.
pub open spec fn spec_batch_kind(kind: PrimitiveKind) -> AlphaBatchKind {
    match kind {
        PrimitiveKind::Rectangle => AlphaBatchKind::Rectangle,
        PrimitiveKind::Image => AlphaBatchKind::Image,
        PrimitiveKind::TextRun => AlphaBatchKind::TextRun,
        PrimitiveKind::Border => AlphaBatchKind::Border,
        PrimitiveKind::Gradient => AlphaBatchKind::Gradient,
        PrimitiveKind::BoxShadow => AlphaBatchKind::BoxShadow,
        PrimitiveKind::Picture => AlphaBatchKind::Composite,
    }
}

pub fn batch_kind(kind: PrimitiveKind) -> (k: AlphaBatchKind)
    ensures
        k == spec_batch_kind(kind),
{
    match kind {
        PrimitiveKind::Rectangle => AlphaBatchKind::Rectangle,
        PrimitiveKind::Image => AlphaBatchKind::Image,
        PrimitiveKind::TextRun => AlphaBatchKind::TextRun,
        PrimitiveKind::Border => AlphaBatchKind::Border,
        PrimitiveKind::Gradient => AlphaBatchKind::Gradient,
        PrimitiveKind::BoxShadow => AlphaBatchKind::BoxShadow,
        PrimitiveKind::Picture => AlphaBatchKind::Composite,
    }
}

/// A primitive is drawn without blending where it is opaque, has no blur
/// and lies behind no mask; a blurred one is drawn with premultiplied alpha.
pub open spec fn spec_blend_mode(v: VisiblePrimitive) -> BlendMode {
    if v.info.blur_radius > 0 {
        BlendMode::PremultipliedAlpha
    } else if v.info.is_opaque && v.mask is None {
        BlendMode::NoBlend
    } else {
        BlendMode::Alpha
    }
}

/// The key of the batch that a primitive can join.
pub open spec fn spec_batch_key(v: VisiblePrimitive) -> BatchKey {
    BatchKey {
        kind: spec_batch_kind(v.info.kind),
        blend_mode: spec_blend_mode(v),
        textures: BatchTextures {
            color0: v.info.texture,
            color1: SourceTexture::Invalid,
            color2: SourceTexture::Invalid,
        },
    }
}

pub fn batch_key(v: &VisiblePrimitive) -> (key: BatchKey)
    ensures
        key == spec_batch_key(*v),
{
    let blend_mode = if v.info.blur_radius > 0 {
        BlendMode::PremultipliedAlpha
    } else if v.info.is_opaque && v.mask.is_none() {
        BlendMode::NoBlend
    } else {
        BlendMode::Alpha
    };
    BatchKey {
        kind: batch_kind(v.info.kind),
        blend_mode,
        textures: BatchTextures {
            color0: v.info.texture,
            color1: SourceTexture::Invalid,
            color2: SourceTexture::Invalid,
        },
    }
}

/// A blur task for a primitive: it has the size of what can be seen of the
/// primitive, and reads from no other task.
pub open spec fn blur_task(kind: RenderTaskKind, v: VisiblePrimitive) -> RenderTaskModel {
    RenderTaskModel {
        kind,
        location: RenderTaskLocation::Dynamic {
            width: v.bounds.spec_width() as u32,
            height: v.bounds.spec_height() as u32,
        },
        payload: RenderTaskPayload::Blur { radius: v.info.blur_radius },
        deps: Seq::empty(),
    }
}

/// The task that draws the mask of clip node `node` for a primitive.
pub open spec fn mask_task(v: VisiblePrimitive, node: usize) -> RenderTaskModel {
    RenderTaskModel {
        kind: RenderTaskKind::CacheMask,
        location: RenderTaskLocation::Dynamic {
            width: v.bounds.spec_width() as u32,
            height: v.bounds.spec_height() as u32,
        },
        payload: RenderTaskPayload::Mask { clip_node: node },
        deps: Seq::empty(),
    }
}

/// What one more drawn primitive leaves behind, with its data in block
/// `block` of the GPU cache. A blurred primitive gets a vertical and a
/// horizontal blur task, a masked one a mask task after them. Its place in
/// the paint order is the number of primitives drawn before it.
pub open spec fn prepare_one(p: Prepared, v: VisiblePrimitive, block: int) -> Prepared {
    let first = p.tasks.len() as int;
    let blurred = v.info.blur_radius > 0;
    let with_blur = if blurred {
        p.tasks.push(blur_task(RenderTaskKind::VerticalBlur, v)).push(
            blur_task(RenderTaskKind::HorizontalBlur, v),
        )
    } else {
        p.tasks
    };
    let blurs = if blurred {
        p.blurs.push(
            BlurCommand {
                task_id: clamp_to_i32(first) as i32,
                src_task_id: -1i32,
                blur_direction: 0,
            },
        ).push(
            BlurCommand {
                task_id: clamp_to_i32(first + 1) as i32,
                src_task_id: -1i32,
                blur_direction: 1,
            },
        )
    } else {
        p.blurs
    };
    let mask_id = with_blur.len() as int;
    Prepared {
        tasks: match v.mask {
            Some(node) => with_blur.push(mask_task(v, node)),
            None => with_blur,
        },
        blurs,
        clips: match v.mask {
            Some(node) => p.clips.push(
                CacheClipInstance {
                    task_id: clamp_to_i32(mask_id) as i32,
                    layer_index: clamp_to_i32(node as int) as i32,
                    address: clamp_to_i32(block) as i32,
                    segment: 0,
                    resource_address: 0,
                },
            ),
            None => p.clips,
        },
        draws: p.draws.push(
            DrawItem {
                key: spec_batch_key(v),
                bounds: v.bounds,
                prim_address: clamp_to_i32(block) as i32,
                clip_task_index: match v.mask {
                    Some(node) => clamp_to_i32(mask_id) as i32,
                    None => -1i32,
                },
                layer_index: clamp_to_i32(v.node as int) as i32,
                z_sort_index: clamp_to_i32(p.draws.len() as int) as i32,
                prim_index: clamp_to_i32(v.prim as int) as i32,
            },
        ),
    }
}

/// The handle of a primitive names a block of the cache as it is now.
pub open spec fn is_resident(handle: GpuCacheHandle, generation: int, blocks: Seq<GpuBlock>) -> bool {
    handle.location matches Some(location) && location.generation == generation
        && location.block_index < blocks.len()
}

/// The entry of a primitive with the handle of its block.
pub open spec fn with_handle(m: PrimitiveMetadata, handle: GpuCacheHandle) -> PrimitiveMetadata {
    PrimitiveMetadata {
        kind: m.kind,
        local_rect: m.local_rect,
        local_clip_rect: m.local_clip_rect,
        is_opaque: m.is_opaque,
        blur_radius: m.blur_radius,
        texture: m.texture,
        gpu_data: m.gpu_data,
        gpu_handle: handle,
    }
}

/// The state after one more visible primitive was looked at. A primitive
/// whose block is resident is drawn with that block. Any other gets the next
/// block of the cache, and its handle is recorded in the store. Where the
/// cache is full, or the store does not hold the primitive, the primitive is
/// dropped.
pub open spec fn assign_one(a: Assigned, cache: GpuCacheModel, v: VisiblePrimitive) -> Assigned {
    if v.prim >= a.store.len() {
        Assigned {
            prepared: a.prepared,
            blocks: a.blocks,
            dirty: a.dirty,
            store: a.store,
            dropped: a.dropped + 1,
        }
    } else if is_resident(a.store[v.prim as int].gpu_handle, cache.generation, a.blocks) {
        Assigned {
            prepared: prepare_one(
                a.prepared,
                v,
                a.store[v.prim as int].gpu_handle.location->0.block_index as int,
            ),
            blocks: a.blocks,
            dirty: a.dirty,
            store: a.store,
            dropped: a.dropped,
        }
    } else if a.blocks.len() < cache.width * cache.max_rows {
        let block = a.blocks.len() as int;
        Assigned {
            prepared: prepare_one(a.prepared, v, block),
            blocks: a.blocks.push(v.info.gpu_data),
            dirty: a.dirty.insert(cache.address_of(block).v as int),
            store: a.store.update(
                v.prim as int,
                with_handle(
                    a.store[v.prim as int],
                    GpuCacheHandle {
                        location: Some(
                            CacheLocation {
                                block_index: block as usize,
                                generation: cache.generation as u64,
                            },
                        ),
                    },
                ),
            ),
            dropped: a.dropped,
        }
    } else {
        Assigned {
            prepared: a.prepared,
            blocks: a.blocks,
            dirty: a.dirty,
            store: a.store,
            dropped: a.dropped + 1,
        }
    }
}

/// The state after the first `n` visible primitives were looked at, in
/// paint order, starting from the cache and the store as they were.
pub open spec fn assigned(
    vis: Seq<VisiblePrimitive>,
    cache: GpuCacheModel,
    store: Seq<PrimitiveMetadata>,
    n: int,
) -> Assigned
    decreases n,
{
    if n <= 0 || n > vis.len() {
        Assigned {
            prepared: Prepared {
                tasks: Seq::empty(),
                blurs: Seq::empty(),
                clips: Seq::empty(),
                draws: Seq::empty(),
            },
            blocks: cache.blocks,
            dirty: cache.dirty,
            store,
            dropped: 0,
        }
    } else {
        assign_one(assigned(vis, cache, store, n - 1), cache, vis[n - 1])
    }
}

/// Looking at primitives only ever adds blocks to the cache, keeps the
/// number of primitives in the store, and counts what it drops.
pub proof fn lemma_assigned_extends(
    vis: Seq<VisiblePrimitive>,
    cache: GpuCacheModel,
    store: Seq<PrimitiveMetadata>,
    n: int,
)
    requires
        0 <= n <= vis.len(),
    ensures
        cache.blocks.len() <= assigned(vis, cache, store, n).blocks.len(),
        assigned(vis, cache, store, n).blocks.subrange(0, cache.blocks.len() as int)
            == cache.blocks,
        assigned(vis, cache, store, n).store.len() == store.len(),
        0 <= assigned(vis, cache, store, n).dropped <= n,
        assigned(vis, cache, store, n).prepared.draws.len() + assigned(
            vis,
            cache,
            store,
            n,
        ).dropped == n,
    decreases n,
{
    if n > 0 {
        lemma_assigned_extends(vis, cache, store, n - 1);
        let before = assigned(vis, cache, store, n - 1);
        let after = assigned(vis, cache, store, n);
        assert(after.blocks.subrange(0, cache.blocks.len() as int) =~= before.blocks.subrange(
            0,
            cache.blocks.len() as int,
        ));
    } else {
        assert(cache.blocks.subrange(0, cache.blocks.len() as int) =~= cache.blocks);
    }
}

/// Gives each visible primitive, in paint order, its block in the GPU
/// cache and the blur and mask tasks it needs. A primitive whose block is
/// resident keeps it; any other is pushed, and the store records where. A
/// primitive for which the cache has no room is dropped from this frame.
pub fn assign_resources(
    visible: &Vec<VisiblePrimitive>,
    store: &mut PrimitiveStore,
    gpu_cache: &mut GpuCache,
) -> (r: Resources)
    requires
        old(gpu_cache).wf(),
    ensures
        final(gpu_cache).wf(),
        final(gpu_cache)@.width == old(gpu_cache)@.width,
        final(gpu_cache)@.max_rows == old(gpu_cache)@.max_rows,
        final(gpu_cache)@.generation == old(gpu_cache)@.generation,
        old(gpu_cache)@.extended_by(final(gpu_cache)@),
        ({
            let a = assigned(visible@, old(gpu_cache)@, old(store)@, visible@.len() as int);
            &&& final(gpu_cache)@.blocks == a.blocks
            &&& final(gpu_cache)@.dirty == a.dirty
            &&& final(store)@ == a.store
            &&& r.graph.wf()
            &&& r.graph@ == a.prepared.tasks
            &&& r.blurs@ == a.prepared.blurs
            &&& r.clips@ == a.prepared.clips
            &&& r.draws@ == a.prepared.draws
            &&& r.dropped == a.dropped
        }),
{
    let ghost cache0 = gpu_cache@;
    let ghost store0 = store@;
    let mut graph = RenderTaskGraph::new();
    let mut blurs: Vec<BlurCommand> = Vec::new();
    let mut clips: Vec<CacheClipInstance> = Vec::new();
    let mut draws: Vec<DrawItem> = Vec::new();
    let mut dropped: usize = 0;
    let mut k: usize = 0;
    proof {
        gpu_cache.lemma_wf();
        assert(graph@ =~= assigned(visible@, cache0, store0, 0).prepared.tasks);
    }
    while k < visible.len()
        invariant
            k <= visible@.len(),
            cache0 == old(gpu_cache)@,
            store0 == old(store)@,
            0 <= cache0.generation <= u64::MAX,
            gpu_cache.wf(),
            gpu_cache@.width == cache0.width,
            gpu_cache@.max_rows == cache0.max_rows,
            gpu_cache@.generation == cache0.generation,
            gpu_cache@.blocks == assigned(visible@, cache0, store0, k as int).blocks,
            gpu_cache@.dirty == assigned(visible@, cache0, store0, k as int).dirty,
            store@ == assigned(visible@, cache0, store0, k as int).store,
            dropped == assigned(visible@, cache0, store0, k as int).dropped,
            graph.wf(),
            graph@ == assigned(visible@, cache0, store0, k as int).prepared.tasks,
            blurs@ == assigned(visible@, cache0, store0, k as int).prepared.blurs,
            clips@ == assigned(visible@, cache0, store0, k as int).prepared.clips,
            draws@ == assigned(visible@, cache0, store0, k as int).prepared.draws,
        decreases visible@.len() - k,
    {
        let v = visible[k];
        let ghost a = assigned(visible@, cache0, store0, k as int);
        proof {
            lemma_assigned_extends(visible@, cache0, store0, k as int);
            lemma_assigned_extends(visible@, cache0, store0, k + 1);
            assert(assigned(visible@, cache0, store0, k + 1) == assign_one(a, cache0, v));
            gpu_cache.lemma_wf();
        }
        let mut block: Option<usize> = None;
        if v.prim < store.len() {
            let handle = store.get_metadata(PrimitiveIndex(v.prim)).gpu_handle;
            match gpu_cache.request(&handle) {
                Some(_) => {
                    match handle.location {
                        Some(location) => {
                            block = Some(location.block_index);
                        },
                        None => {},
                    }
                },
                None => {
                    let next = gpu_cache.len();
                    let mut fresh = GpuCacheHandle::new();
                    match gpu_cache.push_block(&mut fresh, v.info.gpu_data) {
                        Some(_) => {
                            store.set_gpu_handle(PrimitiveIndex(v.prim), fresh);
                            block = Some(next);
                        },
                        None => {},
                    }
                },
            }
        }
        match block {
            None => {
                dropped += 1;
            },
            Some(block) => {
                let first = graph.len();
                let width = v.bounds.width();
                let height = v.bounds.height();
                if v.info.blur_radius > 0 {
                    let vertical = graph.add_task(
                        RenderTaskKind::VerticalBlur,
                        RenderTaskLocation::Dynamic { width, height },
                        RenderTaskPayload::Blur { radius: v.info.blur_radius },
                        Vec::new(),
                    );
                    let horizontal = graph.add_task(
                        RenderTaskKind::HorizontalBlur,
                        RenderTaskLocation::Dynamic { width, height },
                        RenderTaskPayload::Blur { radius: v.info.blur_radius },
                        Vec::new(),
                    );
                    assert(vertical is Ok && horizontal is Ok);
                    blurs.push(
                        BlurCommand { task_id: to_index(first), src_task_id: -1, blur_direction: 0 },
                    );
                    blurs.push(
                        BlurCommand {
                            task_id: to_index(graph.len() - 1),
                            src_task_id: -1,
                            blur_direction: 1,
                        },
                    );
                }
                let mask_id = graph.len();
                let clip_task_index = match v.mask {
                    Some(node) => {
                        let mask = graph.add_task(
                            RenderTaskKind::CacheMask,
                            RenderTaskLocation::Dynamic { width, height },
                            RenderTaskPayload::Mask { clip_node: node },
                            Vec::new(),
                        );
                        assert(mask is Ok);
                        clips.push(
                            CacheClipInstance {
                                task_id: to_index(mask_id),
                                layer_index: to_index(node),
                                address: to_index(block),
                                segment: 0,
                                resource_address: 0,
                            },
                        );
                        to_index(mask_id)
                    },
                    None => -1,
                };
                let z = draws.len();
                draws.push(
                    DrawItem {
                        key: batch_key(&v),
                        bounds: v.bounds,
                        prim_address: to_index(block),
                        clip_task_index,
                        layer_index: to_index(v.node),
                        z_sort_index: to_index(z),
                        prim_index: to_index(v.prim),
                    },
                );
                proof {
                    assert(ids_to_ints(Seq::<RenderTaskId>::empty()) =~= Seq::<int>::empty());
                    assert(graph@ == prepare_one(a.prepared, v, block as int).tasks);
                }
            },
        }
        k += 1;
    }
    proof {
        lemma_assigned_extends(visible@, cache0, store0, visible@.len() as int);
    }
    Resources { graph, blurs, clips, draws, dropped }
}

/// The instance that a prepared primitive is drawn as into task `root`.
pub open spec fn spec_instance_of(d: DrawItem, root: int) -> PrimitiveInstance {
    PrimitiveInstance {
        prim_address: d.prim_address,
        task_index: clamp_to_i32(root) as i32,
        clip_task_index: d.clip_task_index,
        layer_index: d.layer_index,
        z_sort_index: d.z_sort_index,
        user_data0: d.prim_index,
        user_data1: 0,
        user_data2: 0,
    }
}

/// The batches after one more primitive joined them.
pub open spec fn batch_one(b: Batched, d: DrawItem, root: int) -> Batched {
    let instance = spec_instance_of(d, root);
    if d.key.blend_mode is NoBlend {
        let selected = select_any(b.opaque_keys, d.key, b.opaque_keys.len() as int);
        Batched {
            opaque_keys: keys_after(b.opaque_keys, d.key, selected),
            opaque_items: b.opaque_items.push(
                BatchItem {
                    instance,
                    bounds: d.bounds,
                    batch: batch_after(b.opaque_keys, selected) as usize,
                },
            ),
            alpha_keys: b.alpha_keys,
            alpha_items: b.alpha_items,
        }
    } else {
        let selected = select_ordered(
            b.alpha_keys,
            b.alpha_items,
            d.key,
            d.bounds,
            b.alpha_keys.len() as int,
        );
        Batched {
            opaque_keys: b.opaque_keys,
            opaque_items: b.opaque_items,
            alpha_keys: keys_after(b.alpha_keys, d.key, selected),
            alpha_items: b.alpha_items.push(
                BatchItem {
                    instance,
                    bounds: d.bounds,
                    batch: batch_after(b.alpha_keys, selected) as usize,
                },
            ),
        }
    }
}

/// The batches of the first `n` prepared primitives, added in paint order.
pub open spec fn batched(draws: Seq<DrawItem>, root: int, n: int) -> Batched
    decreases n,
{
    if n <= 0 || n > draws.len() {
        Batched {
            opaque_keys: Seq::empty(),
            opaque_items: Seq::empty(),
            alpha_keys: Seq::empty(),
            alpha_items: Seq::empty(),
        }
    } else {
        batch_one(batched(draws, root, n - 1), draws[n - 1], root)
    }
}

/// The batches that a batcher holds.
pub open spec fn batches_of(b: Batcher) -> Batched {
    Batched {
        opaque_keys: b.opaque().keys(),
        opaque_items: b.opaque().items(),
        alpha_keys: b.alpha().keys(),
        alpha_items: b.alpha().items(),
    }
}

/// Batches the prepared primitives, in paint order, as instances drawn into
/// task `root`.
pub fn batch_draws(draws: &Vec<DrawItem>, root: RenderTaskId) -> (b: Batcher)
    ensures
        b.wf(),
        batches_of(b) == batched(draws@, root.0 as int, draws@.len() as int),
{
    let mut b = Batcher::new();
    let task_index = to_index(root.0);
    let mut n: usize = 0;
    assert(b.opaque().keys() =~= Seq::empty() && b.opaque().items() =~= Seq::empty()
        && b.alpha().keys() =~= Seq::empty() && b.alpha().items() =~= Seq::empty());
    while n < draws.len()
        invariant
            n <= draws@.len(),
            b.wf(),
            task_index as int == clamp_to_i32(root.0 as int),
            batches_of(b) == batched(draws@, root.0 as int, n as int),
        decreases draws@.len() - n,
    {
        let d = draws[n];
        b.add_instance(
            d.key,
            PrimitiveInstance {
                prim_address: d.prim_address,
                task_index,
                clip_task_index: d.clip_task_index,
                layer_index: d.layer_index,
                z_sort_index: d.z_sort_index,
                user_data0: d.prim_index,
                user_data1: 0,
                user_data2: 0,
            },
            d.bounds,
        );
        n += 1;
    }
    b
}

/// What a build hands to the renderer.
pub struct Frame {
    pub tasks: RenderTaskGraph,
    /// The task that composes the frame; it is the last task.
    pub root: RenderTaskId,
    pub passes: Vec<RenderPass>,
    pub batcher: Batcher,
    pub blurs: Vec<BlurCommand>,
    pub clips: Vec<CacheClipInstance>,
    pub background_color: Option<ColorBits>,
    /// How many visible primitives got no room in the GPU cache.
    pub dropped: usize,
}

/// The task that composes a frame out of `count` other tasks: it draws to
/// the framebuffer and reads from all of them.
pub open spec fn root_task(count: int) -> RenderTaskModel {
    RenderTaskModel {
        kind: RenderTaskKind::Picture,
        location: RenderTaskLocation::Framebuffer,
        payload: RenderTaskPayload::Empty,
        deps: Seq::new(count as nat, |i: int| i),
    }
}

impl Frame {
    /// The frame is the one that the display list makes, seen through the
    /// tree and the viewport, with the GPU cache and the primitive store as
    /// they were before the build.
    pub open spec fn built_from(
        &self,
        items: Seq<DisplayItem>,
        nodes: Seq<ClipScrollNode>,
        viewport: DeviceRect,
        background_color: Option<ColorBits>,
        cache: GpuCacheModel,
        store: Seq<PrimitiveMetadata>,
    ) -> bool {
        let vis = visible_primitives(nodes, viewport, items, items.len() as int);
        let a = assigned(vis, cache, store, vis.len() as int);
        let root = a.prepared.tasks.len() as int;
        &&& self.tasks.wf()
        &&& self.tasks@ == a.prepared.tasks.push(root_task(root))
        &&& self.root.0 == root
        &&& self.passes@.len() == pass_index(self.tasks.deps(), root) + 1
        &&& forall|k: int|
            0 <= k < self.passes@.len() ==> ids_to_ints((#[trigger] self.passes@[k]).tasks@)
                == pass_members(self.tasks.deps(), root, k, root + 1)
        &&& self.batcher.wf()
        &&& batches_of(self.batcher) == batched(
            a.prepared.draws,
            root,
            a.prepared.draws.len() as int,
        )
        &&& self.blurs@ == a.prepared.blurs
        &&& self.clips@ == a.prepared.clips
        &&& self.background_color == background_color
        &&& self.dropped == a.dropped
    }
}

/// A scene: the display list and the store of its primitives. The store
/// lives as long as the scene, and with it the handles of the primitives
/// into the GPU cache, so that a later frame finds the blocks of an earlier
/// one.
pub struct FrameBuilder {
    items: Vec<DisplayItem>,
    store: PrimitiveStore,
}

impl FrameBuilder {
    /// The display list of the scene.
    pub closed spec fn items(&self) -> Seq<DisplayItem> {
        self.items@
    }

    /// What the store holds of each primitive of the scene.
    pub closed spec fn store(&self) -> Seq<PrimitiveMetadata> {
        self.store@
    }

    /// Takes a display list as the next scene. A list that is not well
    /// nested, or that names a clip node beyond the `tree_len` nodes of the
    /// tree, is refused.
    pub fn new(display_list: &Vec<DisplayItem>, tree_len: usize) -> (r: Result<
        FrameBuilder,
        BuildError,
    >)
        ensures
            r is Ok <==> structure_error(display_list@, tree_len as int) is None,
            r matches Err(e) ==> structure_error(display_list@, tree_len as int) == Some(e),
            r matches Ok(b) ==> b.items() == display_list@ && b.store() == initial_store(
                display_list@,
                display_list@.len() as int,
            ),
    {
        match check_structure(display_list, tree_len) {
            Err(e) => {
                return Err(e);
            },
            Ok(_) => {},
        }
        let mut items: Vec<DisplayItem> = Vec::new();
        let mut n: usize = 0;
        while n < display_list.len()
            invariant
                n <= display_list@.len(),
                items@ == display_list@.subrange(0, n as int),
            decreases display_list@.len() - n,
        {
            items.push(display_list[n]);
            assert(items@ =~= display_list@.subrange(0, n + 1));
            n += 1;
        }
        assert(items@ =~= display_list@);
        let store = flatten(&items);
        Ok(FrameBuilder { items, store })
    }

    /// The store of the scene's primitives.
    pub fn primitives(&self) -> (store: &PrimitiveStore)
        ensures
            store@ == self.store(),
    {
        &self.store
    }

    /// Builds a frame of the scene. Every visible primitive whose block is
    /// resident in the GPU cache is drawn with it; any other gets a block,
    /// if the cache has room, and is dropped from this frame if not.
    pub fn build(
        &mut self,
        tree: &ClipScrollTree,
        viewport: DeviceRect,
        background_color: Option<ColorBits>,
        gpu_cache: &mut GpuCache,
    ) -> (frame: Frame)
        requires
            tree.wf(),
            old(gpu_cache).wf(),
        ensures
            final(gpu_cache).wf(),
            final(self).items() == old(self).items(),
            frame.built_from(
                old(self).items(),
                tree@,
                viewport,
                background_color,
                old(gpu_cache)@,
                old(self).store(),
            ),
            old(gpu_cache)@.extended_by(final(gpu_cache)@),
            ({
                let vis = visible_primitives(
                    tree@,
                    viewport,
                    old(self).items(),
                    old(self).items().len() as int,
                );
                let a = assigned(vis, old(gpu_cache)@, old(self).store(), vis.len() as int);
                &&& final(gpu_cache)@.blocks == a.blocks
                &&& final(gpu_cache)@.dirty == a.dirty
                &&& final(self).store() == a.store
            }),
    {
        let visible = cull(&self.items, tree, viewport);
        let resources = assign_resources(&visible, &mut self.store, gpu_cache);
        let Resources { graph, blurs, clips, draws, dropped } = resources;
        let mut graph = graph;
        let count = graph.len();
        let mut deps: Vec<RenderTaskId> = Vec::new();
        let mut i: usize = 0;
        while i < count
            invariant
                i <= count,
                deps@.len() == i,
                forall|k: int| 0 <= k < i ==> (#[trigger] deps@[k]).0 == k,
            decreases count - i,
        {
            deps.push(RenderTaskId(i));
            i += 1;
        }
        assert(ids_to_ints(deps@) =~= Seq::new(count as nat, |i: int| i));
        let added = graph.add_task(
            RenderTaskKind::Picture,
            RenderTaskLocation::Framebuffer,
            RenderTaskPayload::Empty,
            deps,
        );
        let root = match added {
            Ok(id) => id,
            Err(_) => {
                // Every dependency is a task of the graph.
                assert(false);
                RenderTaskId(count)
            },
        };
        let passes = graph.build_passes(root);
        let batcher = batch_draws(&draws, root);
        Frame { tasks: graph, root, passes, batcher, blurs, clips, background_color, dropped }
    }
}

/// Builds the frame of a display list that is seen for the first time. A
/// list that is not well nested, or that names a clip node that the tree
/// does not hold, gives an error, and the GPU cache stays as it is. Else
/// every visible primitive for which the cache has room gets a block, and
/// the frame holds the tasks, passes and batches of those primitives.
pub fn build(
    display_list: &Vec<DisplayItem>,
    tree: &ClipScrollTree,
    viewport: DeviceRect,
    background_color: Option<ColorBits>,
    gpu_cache: &mut GpuCache,
) -> (r: Result<Frame, BuildError>)
    requires
        tree.wf(),
        old(gpu_cache).wf(),
    ensures
        final(gpu_cache).wf(),
        r is Ok <==> structure_error(display_list@, tree@.len() as int) is None,
        r matches Err(e) ==> structure_error(display_list@, tree@.len() as int) == Some(e) && final(gpu_cache)@ == old(gpu_cache)@,
        r matches Ok(frame) ==> {
            let store = initial_store(display_list@, display_list@.len() as int);
            let vis = visible_primitives(tree@, viewport, display_list@, display_list@.len() as int);
            let a = assigned(vis, old(gpu_cache)@, store, vis.len() as int);
            &&& frame.built_from(
                display_list@,
                tree@,
                viewport,
                background_color,
                old(gpu_cache)@,
                store,
            )
            &&& old(gpu_cache)@.extended_by(final(gpu_cache)@)
            &&& final(gpu_cache)@.blocks == a.blocks
            &&& final(gpu_cache)@.dirty == a.dirty
        },
{
    match FrameBuilder::new(display_list, tree.len()) {
        Err(e) => Err(e),
        Ok(builder) => {
            let mut builder = builder;
            Ok(builder.build(tree, viewport, background_color, gpu_cache))
        },
    }
}

/// Two builds of one display list, seen through one tree and one viewport,
/// with the GPU cache and the store in one state, give the same tasks, the
/// same passes and the same batches.
pub proof fn lemma_build_is_repeatable(
    first: Frame,
    second: Frame,
    items: Seq<DisplayItem>,
    nodes: Seq<ClipScrollNode>,
    viewport: DeviceRect,
    background_color: Option<ColorBits>,
    cache: GpuCacheModel,
    store: Seq<PrimitiveMetadata>,
)
    requires
        first.built_from(items, nodes, viewport, background_color, cache, store),
        second.built_from(items, nodes, viewport, background_color, cache, store),
    ensures
        first.tasks@ == second.tasks@,
        first.root == second.root,
        first.passes@.len() == second.passes@.len(),
        forall|k: int|
            0 <= k < first.passes@.len() ==> ids_to_ints((#[trigger] first.passes@[k]).tasks@)
                == ids_to_ints(second.passes@[k].tasks@),
        batches_of(first.batcher) == batches_of(second.batcher),
        first.blurs@ == second.blurs@,
        first.clips@ == second.clips@,
        first.dropped == second.dropped,
{
    assert(first.tasks.deps() =~= second.tasks.deps());
}

/// The visible primitives are distinct primitives of the scene, by
/// increasing index.
proof fn lemma_visible_primitives_are_distinct(
    nodes: Seq<ClipScrollNode>,
    viewport: DeviceRect,
    items: Seq<DisplayItem>,
    n: int,
)
    requires
        0 <= n <= items.len() <= usize::MAX,
    ensures
        forall|i: int, j: int|
            0 <= i < j < visible_primitives(nodes, viewport, items, n).len() ==> (
            #[trigger] visible_primitives(nodes, viewport, items, n)[i]).prim < (
            #[trigger] visible_primitives(nodes, viewport, items, n)[j]).prim,
    decreases n,
{
    if n > 0 {
        lemma_visible_primitives_are_distinct(nodes, viewport, items, n - 1);
        lemma_visible_primitives_are_drawn(nodes, viewport, items, n - 1);
        lemma_store_holds_every_primitive(items, n - 1);
    }
}

/// What is done for the first primitives is not undone for the later ones:
/// nothing that was dropped comes back, no block goes, a full cache stays as
/// it is, and the store keeps what it holds of a primitive that is not looked
/// at again.
proof fn lemma_assigned_goes_on(
    vis: Seq<VisiblePrimitive>,
    cache: GpuCacheModel,
    store: Seq<PrimitiveMetadata>,
    k: int,
    n: int,
)
    requires
        0 <= k <= n <= vis.len(),
        forall|i: int, j: int|
            0 <= i < j < vis.len() ==> (#[trigger] vis[i]).prim < (#[trigger] vis[j]).prim,
    ensures
        assigned(vis, cache, store, k).dropped <= assigned(vis, cache, store, n).dropped,
        assigned(vis, cache, store, k).blocks.len() <= assigned(vis, cache, store, n).blocks.len(),
        assigned(vis, cache, store, k).store.len() == assigned(vis, cache, store, n).store.len(),
        assigned(vis, cache, store, k).blocks.len() >= cache.width * cache.max_rows ==> assigned(
            vis,
            cache,
            store,
            n,
        ).blocks == assigned(vis, cache, store, k).blocks,
        forall|q: int|
            0 <= q < assigned(vis, cache, store, k).store.len() && (k < vis.len() ==> q
                < vis[k].prim) ==> (#[trigger] assigned(vis, cache, store, n).store[q]) == assigned(
                vis,
                cache,
                store,
                k,
            ).store[q],
    decreases n - k,
{
    if k < n {
        lemma_assigned_goes_on(vis, cache, store, k, n - 1);
        let mid = assigned(vis, cache, store, n - 1);
        let end = assigned(vis, cache, store, n);
        assert(end == assign_one(mid, cache, vis[n - 1]));
        assert forall|q: int|
            0 <= q < assigned(vis, cache, store, k).store.len() && (k < vis.len() ==> q
                < vis[k].prim) implies (#[trigger] end.store[q]) == assigned(
            vis,
            cache,
            store,
            k,
        ).store[q] by {
            assert(mid.store[q] == assigned(vis, cache, store, k).store[q]);
            if k < n - 1 {
                assert(vis[k].prim < vis[n - 1].prim);
            }
            assert(q != vis[n - 1].prim);
        }
    }
}

/// With the blocks and the handles that a build has left, the first `k`
/// primitives get the tasks and draws again that they got in that build,
/// those that were dropped are dropped again, and nothing is pushed.
proof fn lemma_assigned_again(
    vis: Seq<VisiblePrimitive>,
    cache: GpuCacheModel,
    store: Seq<PrimitiveMetadata>,
    later: GpuCacheModel,
    k: int,
)
    requires
        0 <= k <= vis.len(),
        forall|i: int, j: int|
            0 <= i < j < vis.len() ==> (#[trigger] vis[i]).prim < (#[trigger] vis[j]).prim,
        0 <= cache.width <= u16::MAX,
        0 <= cache.max_rows <= u16::MAX,
        0 <= cache.generation <= u64::MAX,
        later.width == cache.width,
        later.max_rows == cache.max_rows,
        later.generation == cache.generation,
        later.blocks == assigned(vis, cache, store, vis.len() as int).blocks,
    ensures
        ({
            let first = assigned(vis, cache, store, k);
            let again = assigned(
                vis,
                later,
                assigned(vis, cache, store, vis.len() as int).store,
                k,
            );
            &&& again.prepared == first.prepared
            &&& again.blocks == later.blocks
            &&& again.dirty == later.dirty
            &&& again.store == assigned(vis, cache, store, vis.len() as int).store
            &&& again.dropped == first.dropped
        }),
    decreases k,
{
    let n = vis.len() as int;
    let kept = assigned(vis, cache, store, n).store;
    if k > 0 {
        lemma_assigned_again(vis, cache, store, later, k - 1);
        let v = vis[k - 1];
        let p = v.prim as int;
        let before = assigned(vis, cache, store, k - 1);
        let first = assigned(vis, cache, store, k);
        let again_before = assigned(vis, later, kept, k - 1);
        assert(first == assign_one(before, cache, v));
        assert(assigned(vis, later, kept, k) == assign_one(again_before, later, v));
        lemma_assigned_extends(vis, cache, store, k - 1);
        lemma_assigned_goes_on(vis, cache, store, k - 1, k);
        lemma_assigned_goes_on(vis, cache, store, k, n);
        lemma_assigned_goes_on(vis, cache, store, k - 1, n);
        assert(cache.width * cache.max_rows <= 0xffff * 0xffff) by (nonlinear_arith)
            requires
                0 <= cache.width <= 0xffff,
                0 <= cache.max_rows <= 0xffff,
        ;
        if p < before.store.len() {
            // The store has kept since what it held of the primitive after
            // its turn.
            assert(kept[p] == first.store[p]) by {
                if k < n {
                    assert(vis[k - 1].prim < vis[k].prim);
                }
            }
            if is_resident(before.store[p].gpu_handle, cache.generation, before.blocks) {
                assert(first.store == before.store);
                assert(is_resident(kept[p].gpu_handle, later.generation, later.blocks));
            } else if before.blocks.len() < cache.width * cache.max_rows {
                assert(first.blocks.len() == before.blocks.len() + 1);
                assert(is_resident(kept[p].gpu_handle, later.generation, later.blocks));
            } else {
                // The cache was full at its turn, and has stayed as it was.
                assert(later.blocks == before.blocks);
                assert(first.store == before.store);
                assert(!is_resident(kept[p].gpu_handle, later.generation, later.blocks));
            }
        }
    }
}

/// A build of a scene after another build of it, with the blocks and the
/// handles that the first has left, gives the same tasks, the same passes
/// and the same batches, drops what the first dropped, and pushes nothing.
pub proof fn lemma_next_build_is_the_same(
    first: Frame,
    second: Frame,
    items: Seq<DisplayItem>,
    nodes: Seq<ClipScrollNode>,
    viewport: DeviceRect,
    background_color: Option<ColorBits>,
    cache: GpuCacheModel,
    store: Seq<PrimitiveMetadata>,
    later: GpuCacheModel,
)
    requires
        items.len() <= usize::MAX,
        0 <= cache.width <= u16::MAX,
        0 <= cache.max_rows <= u16::MAX,
        0 <= cache.generation <= u64::MAX,
        first.built_from(items, nodes, viewport, background_color, cache, store),
        later.width == cache.width,
        later.max_rows == cache.max_rows,
        later.generation == cache.generation,
        ({
            let vis = visible_primitives(nodes, viewport, items, items.len() as int);
            let left = assigned(vis, cache, store, vis.len() as int);
            &&& later.blocks == left.blocks
            &&& second.built_from(items, nodes, viewport, background_color, later, left.store)
        }),
    ensures
        first.tasks@ == second.tasks@,
        first.root == second.root,
        first.passes@.len() == second.passes@.len(),
        forall|k: int|
            0 <= k < first.passes@.len() ==> ids_to_ints((#[trigger] first.passes@[k]).tasks@)
                == ids_to_ints(second.passes@[k].tasks@),
        batches_of(first.batcher) == batches_of(second.batcher),
        first.blurs@ == second.blurs@,
        first.clips@ == second.clips@,
        first.dropped == second.dropped,
        ({
            let vis = visible_primitives(nodes, viewport, items, items.len() as int);
            let left = assigned(vis, cache, store, vis.len() as int);
            assigned(vis, later, left.store, vis.len() as int).blocks == later.blocks
        }),
{
    let vis = visible_primitives(nodes, viewport, items, items.len() as int);
    lemma_visible_primitives_are_distinct(nodes, viewport, items, items.len() as int);
    lemma_assigned_again(vis, cache, store, later, vis.len() as int);
    assert(first.tasks.deps() =~= second.tasks.deps());
}

/// The tasks that primitives get read from no task.
proof fn lemma_prepared_tasks_are_leaves(
    vis: Seq<VisiblePrimitive>,
    cache: GpuCacheModel,
    store: Seq<PrimitiveMetadata>,
    n: int,
)
    requires
        0 <= n <= vis.len(),
    ensures
        forall|t: int|
            0 <= t < assigned(vis, cache, store, n).prepared.tasks.len() ==> (#[trigger] assigned(
                vis,
                cache,
                store,
                n,
            ).prepared.tasks[t]).deps.len() == 0,
    decreases n,
{
    if n > 0 {
        lemma_prepared_tasks_are_leaves(vis, cache, store, n - 1);
    }
}

/// The blur and mask tasks of a frame run in pass 0. The task that composes
/// the frame runs in pass 1 where there is such a task, else in pass 0.
pub proof fn lemma_frame_has_at_most_two_passes(
    frame: Frame,
    items: Seq<DisplayItem>,
    nodes: Seq<ClipScrollNode>,
    viewport: DeviceRect,
    background_color: Option<ColorBits>,
    cache: GpuCacheModel,
    store: Seq<PrimitiveMetadata>,
)
    requires
        frame.built_from(items, nodes, viewport, background_color, cache, store),
    ensures
        forall|t: int| 0 <= t < frame.root.0 ==> pass_index(frame.tasks.deps(), t) == 0,
        pass_index(frame.tasks.deps(), frame.root.0 as int) == if frame.root.0 > 0 {
            1int
        } else {
            0int
        },
        frame.passes@.len() == if frame.root.0 > 0 {
            2int
        } else {
            1int
        },
{
    let vis = visible_primitives(nodes, viewport, items, items.len() as int);
    let g = frame.tasks.deps();
    let root = frame.root.0 as int;
    lemma_prepared_tasks_are_leaves(vis, cache, store, vis.len() as int);
    assert forall|t: int| 0 <= t < root implies pass_index(g, t) == 0 by {
        assert(g[t] == frame.tasks@[t].deps);
        assert(g[t].len() == 0);
    }
    assert(g[root] == frame.tasks@[root].deps);
    crate::render_task::lemma_pass_is_earliest(g, root);
    if root > 0 {
        let j = choose|j: int|
            0 <= j < g[root].len() && pass_index(g, root) == 1 + #[trigger] pass_index(
                g,
                g[root][j],
            );
        assert(g[root][j] == j);
    }
}

} // verus!

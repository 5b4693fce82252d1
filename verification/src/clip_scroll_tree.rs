//! The clip/scroll tree.
//!
//! A node is a reference frame, which moves its content; a scroll frame,
//! which shows a window of its content and moves the content by the scroll
//! offset; or a clip. A node's parent was added before it, so a walk over the
//! nodes in index order meets every parent before its children. Each node
//! keeps the screen position of the origin of its own space.

use crate::geometry::{clamp_to_i32, DevicePoint, DeviceRect, DeviceSize};
use crate::device::TextureId;
use vstd::prelude::*;

verus! {

/// Index of a node in its tree.
#[derive(Clone, Copy, Debug, PartialEq, Eq, Structural)]
pub struct ClipScrollNodeId(pub usize);

/// How a clip node cuts.
#[derive(Clone, Copy, Debug, PartialEq, Eq, Structural)]
pub enum ClipShape {
    Rect,
    RoundedRect { radius: u32 },
    ImageMask { texture: TextureId },
}

#[derive(Clone, Copy, Debug, PartialEq, Eq, Structural)]
pub enum NodeKind {
    /// Moves its content by `origin`.
    ReferenceFrame { origin: DevicePoint },
    /// Shows `viewport`, a box in the parent's space, of content that is
    /// `content` large and moved up and left by `offset`.
    ScrollFrame { viewport: DeviceRect, content: DeviceSize, offset: DevicePoint },
    /// Cuts its content to `rect`, a box in the parent's space.
    Clip { rect: DeviceRect, shape: ClipShape },
}

#[derive(Clone, Copy, Debug, PartialEq, Eq, Structural)]
pub struct ClipScrollNode {
    pub parent: Option<usize>,
    pub kind: NodeKind,
}

/// What a node's content is cut to on screen: a box, and the innermost clip
/// on the way to the root that a box alone does not describe.
#[derive(Clone, Copy, Debug, PartialEq, Eq, Structural)]
pub struct ClipChain {
    pub rect: DeviceRect,
    pub mask: Option<usize>,
}

pub struct ClipScrollTree {
    nodes: Vec<ClipScrollNode>,
    world: Vec<DevicePoint>,
}

/// The whole screen space.
pub open spec fn everything() -> DeviceRect {
    DeviceRect { x0: i32::MIN, y0: i32::MIN, x1: i32::MAX, y1: i32::MAX }
}

/// The largest value in `[low, high]` closest to `v`, with `low <= high`.
pub open spec fn clamp_between(v: int, low: int, high: int) -> int {
    if v < low {
        low
    } else if v > high {
        high
    } else {
        v
    }
}

/// How far a scroll frame can scroll along one axis.
pub open spec fn max_scroll(content: int, window: int) -> int {
    if content > window {
        clamp_to_i32(content - window)
    } else {
        0
    }
}

/// The scroll offset that a scroll frame takes when asked for `wanted`.
pub open spec fn clamped_offset(viewport: DeviceRect, content: DeviceSize, wanted: DevicePoint)
    -> DevicePoint {
    DevicePoint {
        x: clamp_between(
            wanted.x as int,
            0,
            max_scroll(content.width as int, viewport.spec_width()),
        ) as i32,
        y: clamp_between(
            wanted.y as int,
            0,
            max_scroll(content.height as int, viewport.spec_height()),
        ) as i32,
    }
}

/// The node with its scroll offset set as asked, if it is a scroll frame.
pub open spec fn scrolled(node: ClipScrollNode, wanted: Option<DevicePoint>) -> ClipScrollNode {
    match (node.kind, wanted) {
        (NodeKind::ScrollFrame { viewport, content, offset }, Some(w)) => ClipScrollNode {
            parent: node.parent,
            kind: NodeKind::ScrollFrame {
                viewport,
                content,
                offset: clamped_offset(viewport, content, w),
            },
        },
        _ => node,
    }
}

/// How far a node moves its content, along x.
pub open spec fn shift_x(kind: NodeKind) -> int {
    match kind {
        NodeKind::ReferenceFrame { origin } => origin.x as int,
        NodeKind::ScrollFrame { viewport, content, offset } => viewport.x0 - offset.x,
        NodeKind::Clip { rect, shape } => 0,
    }
}

/// How far a node moves its content, along y.
pub open spec fn shift_y(kind: NodeKind) -> int {
    match kind {
        NodeKind::ReferenceFrame { origin } => origin.y as int,
        NodeKind::ScrollFrame { viewport, content, offset } => viewport.y0 - offset.y,
        NodeKind::Clip { rect, shape } => 0,
    }
}

/// Every node but the first has a parent, and the parent comes before it.
pub open spec fn parents_first(nodes: Seq<ClipScrollNode>) -> bool {
    &&& nodes.len() > 0
    &&& nodes[0].parent is None
    &&& forall|i: int|
        0 < i < nodes.len() ==> (#[trigger] nodes[i]).parent is Some && nodes[i].parent->0 < i
}

/// Where the origin of the parent's space is on screen.
pub open spec fn parent_origin(nodes: Seq<ClipScrollNode>, i: int) -> DevicePoint
    decreases i, 0int,
{
    if 0 < i < nodes.len() && nodes[i].parent is Some && nodes[i].parent->0 < i {
        world_origin(nodes, nodes[i].parent->0 as int)
    } else {
        DevicePoint { x: 0, y: 0 }
    }
}

/// Where the origin of the node's own space is on screen: the shifts from
/// the root down to the node, added up, each sum clamped to `i32`.
pub open spec fn world_origin(nodes: Seq<ClipScrollNode>, i: int) -> DevicePoint
    decreases i, 1int,
{
    if 0 <= i < nodes.len() {
        DevicePoint {
            x: clamp_to_i32(parent_origin(nodes, i).x + shift_x(nodes[i].kind)) as i32,
            y: clamp_to_i32(parent_origin(nodes, i).y + shift_y(nodes[i].kind)) as i32,
        }
    } else {
        DevicePoint { x: 0, y: 0 }
    }
}

/// The box that the node itself cuts its content to, on screen.
pub open spec fn own_clip(nodes: Seq<ClipScrollNode>, i: int) -> Option<DeviceRect> {
    match nodes[i].kind {
        NodeKind::ReferenceFrame { origin } => None,
        NodeKind::ScrollFrame { viewport, content, offset } => Some(
            viewport.spec_translate(
                parent_origin(nodes, i).x as int,
                parent_origin(nodes, i).y as int,
            ),
        ),
        NodeKind::Clip { rect, shape } => Some(
            rect.spec_translate(parent_origin(nodes, i).x as int, parent_origin(nodes, i).y as int),
        ),
    }
}

/// The node is a clip that is more than a box.
pub open spec fn needs_mask(kind: NodeKind) -> bool {
    match kind {
        NodeKind::Clip { rect, shape } => !(shape is Rect),
        _ => false,
    }
}

/// The clips from the root down to the node, taken together. Once nothing is
/// left, the clips further down are not looked at.
pub open spec fn combined_clip(nodes: Seq<ClipScrollNode>, i: int) -> ClipChain
    decreases i,
{
    let base = if 0 < i < nodes.len() && nodes[i].parent is Some && nodes[i].parent->0 < i {
        combined_clip(nodes, nodes[i].parent->0 as int)
    } else {
        ClipChain { rect: everything(), mask: None }
    };
    if i < 0 || i >= nodes.len() || base.rect.spec_is_empty() {
        base
    } else {
        match own_clip(nodes, i) {
            None => base,
            Some(r) => ClipChain {
                rect: base.rect.spec_intersection(r),
                mask: if needs_mask(nodes[i].kind) {
                    Some(i as usize)
                } else {
                    base.mask
                },
            },
        }
    }
}

/// A box of the node's space, on screen, cut by the node's clips.
pub open spec fn world_rect(nodes: Seq<ClipScrollNode>, i: int, local: DeviceRect) -> DeviceRect {
    local.spec_translate(
        world_origin(nodes, i).x as int,
        world_origin(nodes, i).y as int,
    ).spec_intersection(combined_clip(nodes, i).rect)
}

/// A clip that holds all that the clips above it have left narrows nothing:
/// the walk can pass it by.
pub proof fn lemma_containing_clip_narrows_nothing(left: DeviceRect, clip: DeviceRect)
    requires
        !left.spec_is_empty(),
        clip.spec_contains_rect(left),
    ensures
        left.spec_intersection(clip) == left,
{
}

/// What is left of `left` within `clip`. Where `clip` holds all of `left`,
/// nothing is computed.
fn narrowed(left: DeviceRect, clip: DeviceRect) -> (r: DeviceRect)
    requires
        !left.spec_is_empty(),
    ensures
        r == left.spec_intersection(clip),
{
    if clip.contains_rect(&left) {
        proof {
            lemma_containing_clip_narrows_nothing(left, clip);
        }
        left
    } else {
        left.intersection(&clip)
    }
}

/// The combined clip lies within every clip on the way: within the parent's
/// combined clip, and within the node's own box.
pub proof fn lemma_combined_clip_narrows(nodes: Seq<ClipScrollNode>, i: int)
    requires
        parents_first(nodes),
        0 < i < nodes.len(),
    ensures
        combined_clip(nodes, nodes[i].parent->0 as int).rect.spec_contains_rect(
            combined_clip(nodes, i).rect,
        ),
        own_clip(nodes, i) matches Some(r) ==> r.spec_contains_rect(combined_clip(nodes, i).rect),
{
}

fn clamp_wide(v: i64) -> (r: i32)
    ensures
        r as int == clamp_to_i32(v as int),
{
    if v < i32::MIN as i64 {
        i32::MIN
    } else if v > i32::MAX as i64 {
        i32::MAX
    } else {
        v as i32
    }
}

fn clamp_scroll(wanted: i32, content: u32, window: u32) -> (r: i32)
    ensures
        r as int == clamp_between(wanted as int, 0, max_scroll(content as int, window as int)),
{
    let most: i32 = if content > window {
        clamp_wide(content as i64 - window as i64)
    } else {
        0
    };
    if wanted < 0 {
        0
    } else if wanted > most {
        most
    } else {
        wanted
    }
}

impl ClipScrollTree {
    /// The nodes, in the order in which they were added.
    pub closed spec fn view(&self) -> Seq<ClipScrollNode> {
        self.nodes@
    }

    /// The parents come first, and every node knows where it is on screen.
    pub closed spec fn wf(&self) -> bool {
        &&& parents_first(self.nodes@)
        &&& self.world@.len() == self.nodes@.len()
        &&& forall|i: int|
            0 <= i < self.nodes@.len() ==> #[trigger] self.world@[i] == world_origin(self.nodes@, i)
    }

    /// What `wf` says of the nodes.
    pub proof fn lemma_wf(&self)
        requires
            self.wf(),
        ensures
            parents_first(self@),
    {
    }

    /// A tree of one node: a reference frame at the origin of the screen.
    pub fn new() -> (t: ClipScrollTree)
        ensures
            t.wf(),
            t@ == seq![
                ClipScrollNode {
                    parent: None,
                    kind: NodeKind::ReferenceFrame { origin: DevicePoint { x: 0, y: 0 } },
                },
            ],
    {
        let mut nodes: Vec<ClipScrollNode> = Vec::new();
        nodes.push(
            ClipScrollNode {
                parent: None,
                kind: NodeKind::ReferenceFrame { origin: DevicePoint { x: 0, y: 0 } },
            },
        );
        let mut world: Vec<DevicePoint> = Vec::new();
        world.push(DevicePoint { x: 0, y: 0 });
        let t = ClipScrollTree { nodes, world };
        assert(t.nodes@ =~= seq![
            ClipScrollNode {
                parent: None,
                kind: NodeKind::ReferenceFrame { origin: DevicePoint { x: 0, y: 0 } },
            },
        ]);
        t
    }

    pub fn len(&self) -> (n: usize)
        ensures
            n == self@.len(),
    {
        self.nodes.len()
    }

    pub fn root() -> (id: ClipScrollNodeId)
        ensures
            id.0 == 0,
    {
        ClipScrollNodeId(0)
    }

    /// Whether the id names a node of this tree.
    pub fn contains(&self, id: ClipScrollNodeId) -> (b: bool)
        ensures
            b == (id.0 < self@.len()),
    {
        id.0 < self.nodes.len()
    }

    pub fn node(&self, id: ClipScrollNodeId) -> (n: ClipScrollNode)
        requires
            id.0 < self@.len(),
        ensures
            n == self@[id.0 as int],
    {
        self.nodes[id.0]
    }

    fn origin_below(&self, parent: Option<usize>, kind: NodeKind) -> (p: DevicePoint)
        requires
            parent matches Some(q) ==> q < self.world@.len(),
        ensures
            p.x as int == clamp_to_i32(
                (match parent {
                    Some(q) => self.world@[q as int].x as int,
                    None => 0,
                }) + shift_x(kind),
            ),
            p.y as int == clamp_to_i32(
                (match parent {
                    Some(q) => self.world@[q as int].y as int,
                    None => 0,
                }) + shift_y(kind),
            ),
    {
        let base = match parent {
            Some(q) => self.world[q],
            None => DevicePoint { x: 0, y: 0 },
        };
        match kind {
            NodeKind::ReferenceFrame { origin } => DevicePoint {
                x: clamp_wide(base.x as i64 + origin.x as i64),
                y: clamp_wide(base.y as i64 + origin.y as i64),
            },
            NodeKind::ScrollFrame { viewport, content, offset } => DevicePoint {
                x: clamp_wide(base.x as i64 + viewport.x0 as i64 - offset.x as i64),
                y: clamp_wide(base.y as i64 + viewport.y0 as i64 - offset.y as i64),
            },
            NodeKind::Clip { rect, shape } => DevicePoint {
                x: clamp_wide(base.x as i64),
                y: clamp_wide(base.y as i64),
            },
        }
    }

    /// Adds a node below `parent` and returns its id, or nothing, with the
    /// tree unchanged, where `parent` names no node.
    pub fn add_node(&mut self, parent: ClipScrollNodeId, kind: NodeKind) -> (r: Option<
        ClipScrollNodeId,
    >)
        requires
            old(self).wf(),
        ensures
            final(self).wf(),
            r is Some <==> parent.0 < old(self)@.len(),
            r matches Some(id) ==> id.0 == old(self)@.len() && final(self)@ == old(self)@.push(
                ClipScrollNode { parent: Some(parent.0), kind },
            ),
            r is None ==> final(self)@ == old(self)@,
    {
        if parent.0 >= self.nodes.len() {
            return None;
        }
        let id = self.nodes.len();
        let origin = self.origin_below(Some(parent.0), kind);
        let ghost before = self.nodes@;
        self.nodes.push(ClipScrollNode { parent: Some(parent.0), kind });
        self.world.push(origin);
        proof {
            let after = self.nodes@;
            assert forall|i: int| 0 <= i < after.len() implies world_origin(after, i) == if i
                < before.len() {
                world_origin(before, i)
            } else {
                origin
            } by {
                lemma_world_origin_prefix(before, after, i);
            }
        }
        Some(ClipScrollNodeId(id))
    }

    /// Sets the scroll offset of every scroll frame that `scroll_offsets`
    /// has an entry for, brought into the range that the frame can scroll,
    /// and places every node anew, parents before children.
    pub fn update_transforms(&mut self, scroll_offsets: &Vec<Option<DevicePoint>>)
        requires
            old(self).wf(),
        ensures
            final(self).wf(),
            final(self)@.len() == old(self)@.len(),
            forall|i: int|
                0 <= i < old(self)@.len() ==> #[trigger] final(self)@[i] == scrolled(
                    old(self)@[i],
                    if i < scroll_offsets@.len() {
                        scroll_offsets@[i]
                    } else {
                        None
                    },
                ),
    {
        let ghost before = self.nodes@;
        let n = self.nodes.len();
        let mut i: usize = 0;
        while i < n
            invariant
                i <= n,
                n == before.len(),
                self.nodes@.len() == n,
                self.world@.len() == n,
                parents_first(before),
                forall|k: int|
                    0 <= k < i ==> #[trigger] self.nodes@[k] == scrolled(
                        before[k],
                        if k < scroll_offsets@.len() {
                            scroll_offsets@[k]
                        } else {
                            None
                        },
                    ),
                forall|k: int| i <= k < n ==> #[trigger] self.nodes@[k] == before[k],
                forall|k: int| 0 <= k < n ==> (#[trigger] self.nodes@[k]).parent == before[k].parent,
                forall|k: int|
                    0 <= k < i ==> #[trigger] self.world@[k] == world_origin(self.nodes@, k),
            decreases n - i,
        {
            let node = self.nodes[i];
            let wanted: Option<DevicePoint> = if i < scroll_offsets.len() {
                scroll_offsets[i]
            } else {
                None
            };
            let moved = match (node.kind, wanted) {
                (NodeKind::ScrollFrame { viewport, content, offset }, Some(w)) => ClipScrollNode {
                    parent: node.parent,
                    kind: NodeKind::ScrollFrame {
                        viewport,
                        content,
                        offset: DevicePoint {
                            x: clamp_scroll(w.x, content.width, viewport.width()),
                            y: clamp_scroll(w.y, content.height, viewport.height()),
                        },
                    },
                },
                _ => node,
            };
            assert(moved == scrolled(before[i as int], wanted));
            assert(before[i as int].parent matches Some(q) ==> q < i);
            let ghost nodes_before = self.nodes@;
            self.nodes.set(i, moved);
            let origin = self.origin_below(moved.parent, moved.kind);
            self.world.set(i, origin);
            proof {
                let now = self.nodes@;
                assert(parents_first(now)) by {
                    assert forall|k: int| 0 < k < now.len() implies (#[trigger] now[k]).parent is Some
                        && now[k].parent->0 < k by {
                        assert(before[k].parent is Some);
                    }
                    assert(now[0].parent == before[0].parent);
                }
                assert forall|k: int| 0 <= k <= i implies #[trigger] self.world@[k] == world_origin(
                    now,
                    k,
                ) by {
                    lemma_world_origin_same_prefix(nodes_before, now, i as int, k);
                    if k == i {
                        if moved.parent is Some {
                            let q = moved.parent->0 as int;
                            lemma_world_origin_same_prefix(nodes_before, now, i as int, q);
                        }
                    }
                }
            }
            i += 1;
        }
    }

    /// Where the origin of the node's space is on screen.
    pub fn world_origin(&self, id: ClipScrollNodeId) -> (p: DevicePoint)
        requires
            self.wf(),
            id.0 < self@.len(),
        ensures
            p == world_origin(self@, id.0 as int),
    {
        self.world[id.0]
    }

    /// The clips from the root down to the node, taken together. The walk
    /// ends where nothing is left, and passes by a clip that holds all that
    /// is left.
    pub fn get_combined_clip(&self, id: ClipScrollNodeId) -> (c: ClipChain)
        requires
            self.wf(),
            id.0 < self@.len(),
        ensures
            c == combined_clip(self@, id.0 as int),
        decreases id.0,
    {
        let node = self.nodes[id.0];
        let base = match node.parent {
            Some(p) => {
                if id.0 > 0 {
                    self.get_combined_clip(ClipScrollNodeId(p))
                } else {
                    ClipChain {
                        rect: DeviceRect { x0: i32::MIN, y0: i32::MIN, x1: i32::MAX, y1: i32::MAX },
                        mask: None,
                    }
                }
            },
            None => ClipChain {
                rect: DeviceRect { x0: i32::MIN, y0: i32::MIN, x1: i32::MAX, y1: i32::MAX },
                mask: None,
            },
        };
        if base.rect.is_empty() {
            return base;
        }
        let above = match node.parent {
            Some(p) => if id.0 > 0 {
                self.world[p]
            } else {
                DevicePoint { x: 0, y: 0 }
            },
            None => DevicePoint { x: 0, y: 0 },
        };
        assert(above == parent_origin(self.nodes@, id.0 as int));
        match node.kind {
            NodeKind::ReferenceFrame { origin } => base,
            NodeKind::ScrollFrame { viewport, content, offset } => ClipChain {
                rect: narrowed(base.rect, viewport.translate(above)),
                mask: base.mask,
            },
            NodeKind::Clip { rect, shape } => ClipChain {
                rect: narrowed(base.rect, rect.translate(above)),
                mask: match shape {
                    ClipShape::Rect => base.mask,
                    _ => Some(id.0),
                },
            },
        }
    }

    /// A box of the node's space, on screen, cut by the node's clips.
    pub fn get_world_rect(&self, id: ClipScrollNodeId, local_rect: DeviceRect) -> (r: DeviceRect)
        requires
            self.wf(),
            id.0 < self@.len(),
        ensures
            r == world_rect(self@, id.0 as int, local_rect),
    {
        let chain = self.get_combined_clip(id);
        local_rect.translate(self.world[id.0]).intersection(&chain.rect)
    }
}

/// Where a node is depends only on the nodes up to it.
proof fn lemma_world_origin_same_prefix(
    a: Seq<ClipScrollNode>,
    b: Seq<ClipScrollNode>,
    upto: int,
    i: int,
)
    requires
        a.len() == b.len(),
        0 <= i <= upto < a.len(),
        forall|k: int| 0 <= k <= upto && k != upto ==> a[k] == b[k],
        a[upto].parent == b[upto].parent,
    ensures
        i < upto ==> world_origin(a, i) == world_origin(b, i),
        parent_origin(a, i) == parent_origin(b, i),
    decreases i,
{
    if 0 < i && a[i].parent is Some && a[i].parent->0 < i {
        lemma_world_origin_same_prefix(a, b, upto, a[i].parent->0 as int);
    }
}

/// Adding a node moves no node that is there.
proof fn lemma_world_origin_prefix(a: Seq<ClipScrollNode>, b: Seq<ClipScrollNode>, i: int)
    requires
        a.len() < b.len(),
        0 <= i < b.len(),
        forall|k: int| 0 <= k < a.len() ==> a[k] == b[k],
    ensures
        i < a.len() ==> world_origin(a, i) == world_origin(b, i),
        i <= a.len() && 0 < i && b[i].parent is Some && b[i].parent->0 < i ==> parent_origin(b, i)
            == world_origin(a, b[i].parent->0 as int),
    decreases i,
{
    if 0 < i && b[i].parent is Some && b[i].parent->0 < i {
        lemma_world_origin_prefix(a, b, b[i].parent->0 as int);
    }
}

} // verus!

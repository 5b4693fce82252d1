use webrender::clip_scroll_tree::{
    ClipChain, ClipScrollNodeId, ClipScrollTree, ClipShape, NodeKind,
};
use webrender::geometry::{DevicePoint, DeviceRect, DeviceSize};

fn scroll_frame(viewport: DeviceRect, content: DeviceSize) -> NodeKind {
    NodeKind::ScrollFrame { viewport, content, offset: DevicePoint::new(0, 0) }
}

#[test]
fn a_new_tree_has_its_root() {
    let t = ClipScrollTree::new();
    assert_eq!(t.len(), 1);
    assert_eq!(ClipScrollTree::root(), ClipScrollNodeId(0));
    assert!(t.contains(ClipScrollNodeId(0)));
    assert!(!t.contains(ClipScrollNodeId(1)));
    assert_eq!(t.node(ClipScrollNodeId(0)).parent, None);
    assert_eq!(t.world_origin(ClipScrollNodeId(0)), DevicePoint::new(0, 0));
}

#[test]
fn a_node_needs_a_parent_that_is_there() {
    let mut t = ClipScrollTree::new();
    let kind = NodeKind::ReferenceFrame { origin: DevicePoint::new(1, 1) };
    assert_eq!(t.add_node(ClipScrollNodeId(3), kind), None);
    assert_eq!(t.len(), 1);
    assert_eq!(t.add_node(ClipScrollNodeId(0), kind), Some(ClipScrollNodeId(1)));
    assert_eq!(t.node(ClipScrollNodeId(1)).parent, Some(0));
}

#[test]
fn origins_add_up_from_the_root() {
    let mut t = ClipScrollTree::new();
    let a = t
        .add_node(
            ClipScrollNodeId(0),
            NodeKind::ReferenceFrame { origin: DevicePoint::new(10, 20) },
        )
        .unwrap();
    let b = t
        .add_node(a, NodeKind::ReferenceFrame { origin: DevicePoint::new(5, -3) })
        .unwrap();
    let c = t
        .add_node(
            b,
            NodeKind::Clip { rect: DeviceRect::new(0, 0, 4, 4), shape: ClipShape::Rect },
        )
        .unwrap();
    assert_eq!(t.world_origin(a), DevicePoint::new(10, 20));
    assert_eq!(t.world_origin(b), DevicePoint::new(15, 17));
    assert_eq!(t.world_origin(c), DevicePoint::new(15, 17));
    assert_eq!(
        t.get_world_rect(c, DeviceRect::new(1, 1, 10, 10)),
        DeviceRect::new(16, 18, 19, 21)
    );
}

#[test]
fn scrolling_moves_the_content_and_is_clamped() {
    let mut t = ClipScrollTree::new();
    let frame = t
        .add_node(
            ClipScrollNodeId(0),
            scroll_frame(DeviceRect::new(10, 10, 110, 60), DeviceSize::new(300, 50)),
        )
        .unwrap();
    let child = t
        .add_node(frame, NodeKind::ReferenceFrame { origin: DevicePoint::new(1, 2) })
        .unwrap();
    assert_eq!(t.world_origin(frame), DevicePoint::new(10, 10));
    t.update_transforms(&vec![None, Some(DevicePoint::new(50, 30))]);
    match t.node(frame).kind {
        NodeKind::ScrollFrame { offset, .. } => assert_eq!(offset, DevicePoint::new(50, 0)),
        _ => unreachable!(),
    }
    assert_eq!(t.world_origin(frame), DevicePoint::new(-40, 10));
    assert_eq!(t.world_origin(child), DevicePoint::new(-39, 12));
    // More than the content allows, and less than nothing.
    t.update_transforms(&vec![None, Some(DevicePoint::new(5000, -7))]);
    match t.node(frame).kind {
        NodeKind::ScrollFrame { offset, .. } => assert_eq!(offset, DevicePoint::new(200, 0)),
        _ => unreachable!(),
    }
    assert_eq!(t.world_origin(frame), DevicePoint::new(-190, 10));
    // No entry for a node leaves its offset.
    t.update_transforms(&vec![]);
    assert_eq!(t.world_origin(child), DevicePoint::new(-189, 12));
    // An offset for a node that does not scroll is ignored.
    t.update_transforms(&vec![Some(DevicePoint::new(9, 9)), None, Some(DevicePoint::new(3, 3))]);
    assert_eq!(t.world_origin(child), DevicePoint::new(-189, 12));
}

#[test]
fn clips_of_the_ancestors_are_taken_together() {
    let mut t = ClipScrollTree::new();
    let outer = t
        .add_node(
            ClipScrollNodeId(0),
            NodeKind::Clip { rect: DeviceRect::new(0, 0, 100, 100), shape: ClipShape::Rect },
        )
        .unwrap();
    let moved = t
        .add_node(outer, NodeKind::ReferenceFrame { origin: DevicePoint::new(50, 50) })
        .unwrap();
    let inner = t
        .add_node(
            moved,
            NodeKind::Clip {
                rect: DeviceRect::new(-20, 10, 80, 30),
                shape: ClipShape::RoundedRect { radius: 4 },
            },
        )
        .unwrap();
    let leaf = t
        .add_node(inner, scroll_frame(DeviceRect::new(0, 0, 10, 100), DeviceSize::new(10, 10)))
        .unwrap();
    assert_eq!(
        t.get_combined_clip(ClipScrollNodeId(0)),
        ClipChain { rect: DeviceRect::new(i32::MIN, i32::MIN, i32::MAX, i32::MAX), mask: None }
    );
    assert_eq!(
        t.get_combined_clip(moved),
        ClipChain { rect: DeviceRect::new(0, 0, 100, 100), mask: None }
    );
    assert_eq!(
        t.get_combined_clip(inner),
        ClipChain { rect: DeviceRect::new(30, 60, 100, 80), mask: Some(inner.0) }
    );
    assert_eq!(
        t.get_combined_clip(leaf),
        ClipChain { rect: DeviceRect::new(50, 60, 60, 80), mask: Some(inner.0) }
    );
    assert_eq!(
        t.get_world_rect(leaf, DeviceRect::new(0, 0, 1000, 15)),
        DeviceRect::new(50, 60, 60, 65)
    );
}

#[test]
fn nothing_is_looked_at_below_an_empty_clip() {
    let mut t = ClipScrollTree::new();
    let empty = t
        .add_node(
            ClipScrollNodeId(0),
            NodeKind::Clip { rect: DeviceRect::new(5, 5, 5, 5), shape: ClipShape::Rect },
        )
        .unwrap();
    let below = t
        .add_node(
            empty,
            NodeKind::Clip {
                rect: DeviceRect::new(0, 0, 100, 100),
                shape: ClipShape::ImageMask { texture: 3 },
            },
        )
        .unwrap();
    assert_eq!(
        t.get_combined_clip(below),
        ClipChain { rect: DeviceRect::new(5, 5, 5, 5), mask: None }
    );
    assert!(t.get_world_rect(below, DeviceRect::new(0, 0, 50, 50)).is_empty());
}

#[test]
fn a_clip_that_holds_what_is_left_narrows_nothing() {
    let mut t = ClipScrollTree::new();
    let small = t
        .add_node(
            ClipScrollNodeId(0),
            NodeKind::Clip { rect: DeviceRect::new(10, 10, 20, 20), shape: ClipShape::Rect },
        )
        .unwrap();
    let large = t
        .add_node(
            small,
            NodeKind::Clip { rect: DeviceRect::new(0, 0, 100, 100), shape: ClipShape::Rect },
        )
        .unwrap();
    let rounded = t
        .add_node(
            large,
            NodeKind::Clip { rect: DeviceRect::new(5, 5, 50, 50), shape: ClipShape::RoundedRect { radius: 4 } },
        )
        .unwrap();
    let outer = ClipChain { rect: DeviceRect::new(10, 10, 20, 20), mask: None };
    assert_eq!(t.get_combined_clip(small), outer);
    assert_eq!(t.get_combined_clip(large), outer);
    // The box is held, but the corners may still be cut.
    assert_eq!(
        t.get_combined_clip(rounded),
        ClipChain { rect: DeviceRect::new(10, 10, 20, 20), mask: Some(rounded.0) }
    );
}

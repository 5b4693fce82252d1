use webrender::clip_scroll_tree::ClipScrollTree;
use webrender::frame_builder::{build, BuildError, DisplayItem, PrimitiveInfo};
use webrender::geometry::DeviceRect;
use webrender::gpu_cache::{GpuBlock, GpuCache};
use webrender::internal_types::SourceTexture;
use webrender::prim_store::PrimitiveKind;
use webrender::render_task::RenderTaskKind;
use webrender::render_task::RenderTaskId;

fn rect_info(x0: i32, y0: i32, x1: i32, y1: i32) -> PrimitiveInfo {
    PrimitiveInfo {
        kind: PrimitiveKind::Rectangle,
        rect: DeviceRect::new(x0, y0, x1, y1),
        clip_rect: DeviceRect::new(0, 0, 1000, 1000),
        is_opaque: true,
        blur_radius: 0,
        texture: SourceTexture::Invalid,
        gpu_data: GpuBlock { x: 1, y: 2, z: 3, w: 4 },
    }
}

#[test]
fn two_opaque_rectangles_make_one_batch_in_one_pass() {
    let tree = ClipScrollTree::new();
    let mut cache = GpuCache::new(16, 16).unwrap();
    let list = vec![
        DisplayItem::PushStackingContext { bounds: DeviceRect::new(0, 0, 800, 600) },
        DisplayItem::Draw(rect_info(10, 10, 100, 100)),
        DisplayItem::Draw(rect_info(200, 10, 300, 100)),
        DisplayItem::PopStackingContext,
    ];
    let frame = build(&list, &tree, DeviceRect::new(0, 0, 800, 600), None, &mut cache).unwrap();
    assert_eq!(frame.passes.len(), 1);
    assert_eq!(frame.tasks.len(), 1);
    let opaque = frame.batcher.opaque_batches();
    let alpha = frame.batcher.alpha_batches();
    assert_eq!(opaque.len(), 1);
    assert_eq!(alpha.len(), 0);
    assert_eq!(opaque[0].instances.len(), 2);
    assert_eq!(frame.dropped, 0);
}

#[test]
fn blurred_primitive_makes_a_blur_pair_and_a_composite() {
    let tree = ClipScrollTree::new();
    let mut cache = GpuCache::new(16, 16).unwrap();
    let mut shadow = rect_info(10, 10, 100, 100);
    shadow.kind = PrimitiveKind::BoxShadow;
    shadow.blur_radius = 4;
    let list = vec![DisplayItem::Draw(shadow)];
    let frame = build(&list, &tree, DeviceRect::new(0, 0, 800, 600), None, &mut cache).unwrap();
    assert_eq!(frame.tasks.len(), 3);
    assert_eq!(frame.tasks.kind(RenderTaskId(0)), RenderTaskKind::VerticalBlur);
    assert_eq!(frame.tasks.kind(RenderTaskId(1)), RenderTaskKind::HorizontalBlur);
    assert_eq!(frame.tasks.kind(RenderTaskId(2)), RenderTaskKind::Picture);
    assert_eq!(frame.passes.len(), 2);
    assert_eq!(frame.passes[0].tasks, vec![RenderTaskId(0), RenderTaskId(1)]);
    assert_eq!(frame.passes[1].tasks, vec![RenderTaskId(2)]);
    assert_eq!(frame.blurs.len(), 2);
}

#[test]
fn unbalanced_pop_is_an_error_and_leaves_the_cache_alone() {
    let tree = ClipScrollTree::new();
    let mut cache = GpuCache::new(16, 16).unwrap();
    let list = vec![DisplayItem::Draw(rect_info(10, 10, 100, 100)), DisplayItem::PopStackingContext];
    let result = build(&list, &tree, DeviceRect::new(0, 0, 800, 600), None, &mut cache);
    assert!(matches!(result, Err(BuildError::UnbalancedPop)));
    assert_eq!(cache.len(), 0);
}

use webrender::clip_scroll_tree::{ClipScrollNodeId, ClipShape, NodeKind};
use webrender::frame_builder::{
    assign_resources, batch_draws, batch_key, batch_kind, check_structure, cull, flatten,
    to_index, FrameBuilder, VisiblePrimitive,
};
use webrender::geometry::DevicePoint;
use webrender::gpu_cache::GpuCacheAddress;
use webrender::internal_types::{BatchTextures, ColorBits};
use webrender::prim_store::PrimitiveIndex;
use webrender::render_task::{RenderTaskLocation, RenderTaskPayload};
use webrender::renderer::BlendMode;
use webrender::tiling::{AlphaBatchKind, BatchKey, BlurCommand, CacheClipInstance};

fn viewport() -> DeviceRect {
    DeviceRect::new(0, 0, 800, 600)
}

#[test]
fn building_twice_gives_the_same_frame() {
    let mut tree = ClipScrollTree::new();
    let clip = tree
        .add_node(
            ClipScrollNodeId(0),
            NodeKind::Clip {
                rect: DeviceRect::new(0, 0, 400, 400),
                shape: ClipShape::RoundedRect { radius: 8 },
            },
        )
        .unwrap();
    let mut shadow = rect_info(30, 30, 90, 90);
    shadow.kind = PrimitiveKind::BoxShadow;
    shadow.blur_radius = 3;
    let mut translucent = rect_info(50, 50, 150, 150);
    translucent.is_opaque = false;
    let list = vec![
        DisplayItem::PushStackingContext { bounds: DeviceRect::new(10, 10, 500, 500) },
        DisplayItem::Draw(rect_info(0, 0, 100, 100)),
        DisplayItem::PushClip { node: clip },
        DisplayItem::Draw(shadow),
        DisplayItem::Draw(translucent),
        DisplayItem::PopClip,
        DisplayItem::Draw(rect_info(700, 0, 900, 100)),
        DisplayItem::PopStackingContext,
    ];
    let mut first_cache = GpuCache::new(8, 8).unwrap();
    let mut second_cache = GpuCache::new(8, 8).unwrap();
    let first = build(&list, &tree, viewport(), None, &mut first_cache).unwrap();
    let second = build(&list, &tree, viewport(), None, &mut second_cache).unwrap();
    assert_eq!(first.tasks.len(), second.tasks.len());
    assert_eq!(first.passes.len(), second.passes.len());
    for (a, b) in first.passes.iter().zip(second.passes.iter()) {
        assert_eq!(a.tasks, b.tasks);
    }
    let pairs = [
        (first.batcher.opaque_batches(), second.batcher.opaque_batches()),
        (first.batcher.alpha_batches(), second.batcher.alpha_batches()),
    ];
    for (a, b) in pairs.iter() {
        assert_eq!(a.len(), b.len());
        for (x, y) in a.iter().zip(b.iter()) {
            assert_eq!(x.key, y.key);
            assert_eq!(x.instances, y.instances);
        }
    }
    assert_eq!(first.blurs, second.blurs);
    assert_eq!(first.clips, second.clips);
    assert_eq!(first.dropped, second.dropped);
    // What the frame holds.
    assert_eq!(first.tasks.len(), 5);
    assert_eq!(first.root, RenderTaskId(4));
    assert_eq!(first.tasks.kind(RenderTaskId(2)), RenderTaskKind::CacheMask);
    assert_eq!(
        first.tasks.payload(RenderTaskId(2)),
        RenderTaskPayload::Mask { clip_node: clip.0 }
    );
    assert_eq!(first.tasks.kind(RenderTaskId(3)), RenderTaskKind::CacheMask);
    assert_eq!(first.tasks.dependencies(RenderTaskId(4)).len(), 4);
    assert_eq!(first.passes.len(), 2);
    assert_eq!(first_cache.len(), 4);
    assert_eq!(pairs[0].0.len(), 1);
    assert_eq!(pairs[0].0[0].instances.len(), 2);
    assert_eq!(pairs[1].0.len(), 2);
}

#[test]
fn what_cannot_be_seen_is_culled() {
    let tree = ClipScrollTree::new();
    let mut empty = rect_info(10, 10, 10, 50);
    empty.kind = PrimitiveKind::Image;
    let mut clipped_away = rect_info(10, 10, 50, 50);
    clipped_away.clip_rect = DeviceRect::new(100, 100, 200, 200);
    let list = vec![
        DisplayItem::Draw(rect_info(-50, -50, -10, -10)),
        DisplayItem::Draw(empty),
        DisplayItem::Draw(clipped_away),
        DisplayItem::PushStackingContext { bounds: DeviceRect::new(900, 0, 1000, 100) },
        DisplayItem::Draw(rect_info(-880, 10, -870, 20)),
        DisplayItem::PopStackingContext,
        DisplayItem::PushStackingContext { bounds: DeviceRect::new(100, 200, 300, 400) },
        DisplayItem::Draw(rect_info(-10, -20, 30, 40)),
        DisplayItem::PopStackingContext,
    ];
    let visible = cull(&list, &tree, viewport());
    assert_eq!(visible.len(), 1);
    assert_eq!(visible[0].order, 7);
    assert_eq!(visible[0].prim, 4);
    assert_eq!(visible[0].bounds, DeviceRect::new(100, 200, 130, 240));
    assert_eq!(visible[0].node, 0);
    assert_eq!(visible[0].mask, None);
}

#[test]
fn a_primitive_lies_in_the_space_of_its_clip_node() {
    let mut tree = ClipScrollTree::new();
    let frame = tree
        .add_node(
            ClipScrollNodeId(0),
            NodeKind::ReferenceFrame { origin: DevicePoint::new(100, 100) },
        )
        .unwrap();
    let clip = tree
        .add_node(
            frame,
            NodeKind::Clip {
                rect: DeviceRect::new(0, 0, 20, 20),
                shape: ClipShape::ImageMask { texture: 9 },
            },
        )
        .unwrap();
    let list = vec![
        DisplayItem::PushClip { node: clip },
        DisplayItem::Draw(rect_info(10, 10, 50, 50)),
        DisplayItem::PopClip,
        DisplayItem::Draw(rect_info(10, 10, 50, 50)),
    ];
    let visible = cull(&list, &tree, viewport());
    assert_eq!(visible.len(), 2);
    assert_eq!(visible[0].bounds, DeviceRect::new(110, 110, 120, 120));
    assert_eq!(visible[0].node, clip.0);
    assert_eq!(visible[0].mask, Some(clip.0));
    assert_eq!(visible[1].bounds, DeviceRect::new(10, 10, 50, 50));
    assert_eq!(visible[1].mask, None);
}

#[test]
fn structure_faults_are_told_apart() {
    let draw = DisplayItem::Draw(rect_info(0, 0, 1, 1));
    let push = DisplayItem::PushStackingContext { bounds: DeviceRect::new(0, 0, 10, 10) };
    let clip = DisplayItem::PushClip { node: ClipScrollNodeId(0) };
    assert_eq!(check_structure(&vec![], 1), Ok(()));
    assert_eq!(
        check_structure(&vec![push, clip, draw, DisplayItem::PopClip, DisplayItem::PopStackingContext], 1),
        Ok(())
    );
    assert_eq!(
        check_structure(&vec![DisplayItem::PopStackingContext], 1),
        Err(BuildError::UnbalancedPop)
    );
    assert_eq!(check_structure(&vec![DisplayItem::PopClip], 1), Err(BuildError::UnbalancedPop));
    assert_eq!(
        check_structure(&vec![push, DisplayItem::PopClip], 1),
        Err(BuildError::UnbalancedPop)
    );
    assert_eq!(
        check_structure(&vec![clip, DisplayItem::PopStackingContext], 1),
        Err(BuildError::UnbalancedPop)
    );
    assert_eq!(check_structure(&vec![push, draw], 1), Err(BuildError::UnclosedPush));
    assert_eq!(
        check_structure(&vec![DisplayItem::PushClip { node: ClipScrollNodeId(1) }, DisplayItem::PopClip], 1),
        Err(BuildError::InvalidNode)
    );
    // The first fault is the one that is told.
    assert_eq!(
        check_structure(
            &vec![DisplayItem::PushClip { node: ClipScrollNodeId(4) }, DisplayItem::PopStackingContext],
            1
        ),
        Err(BuildError::InvalidNode)
    );
}

#[test]
fn a_build_fails_as_the_structure_check_does() {
    let tree = ClipScrollTree::new();
    let mut cache = GpuCache::new(4, 4).unwrap();
    let unclosed = vec![
        DisplayItem::PushStackingContext { bounds: DeviceRect::new(0, 0, 10, 10) },
        DisplayItem::Draw(rect_info(0, 0, 5, 5)),
    ];
    assert!(matches!(
        build(&unclosed, &tree, viewport(), None, &mut cache),
        Err(BuildError::UnclosedPush)
    ));
    let bad_node = vec![
        DisplayItem::Draw(rect_info(0, 0, 5, 5)),
        DisplayItem::PushClip { node: ClipScrollNodeId(7) },
        DisplayItem::PopClip,
    ];
    assert!(matches!(
        build(&bad_node, &tree, viewport(), None, &mut cache),
        Err(BuildError::InvalidNode)
    ));
    assert_eq!(cache.len(), 0);
    assert!(cache.flush().is_empty());
}

#[test]
fn primitives_without_room_in_the_cache_are_dropped() {
    let tree = ClipScrollTree::new();
    let mut cache = GpuCache::new(2, 1).unwrap();
    let mut list = Vec::new();
    for n in 0..5 {
        let mut info = rect_info(n * 10, 0, n * 10 + 5, 5);
        info.gpu_data = GpuBlock { x: n as u32, y: 0, z: 0, w: 0 };
        list.push(DisplayItem::Draw(info));
    }
    let mut builder = FrameBuilder::new(&list, tree.len()).unwrap();
    assert_eq!(builder.primitives().len(), 5);
    let frame = builder.build(&tree, viewport(), None, &mut cache);
    assert_eq!(frame.dropped, 3);
    assert_eq!(cache.len(), 2);
    assert_eq!(cache.get(GpuCacheAddress { u: 1, v: 0 }), Some(GpuBlock { x: 1, y: 0, z: 0, w: 0 }));
    let opaque = frame.batcher.opaque_batches();
    assert_eq!(opaque.len(), 1);
    assert_eq!(opaque[0].instances.len(), 2);
    let handle = builder.primitives().get_metadata(PrimitiveIndex(1)).gpu_handle;
    assert_eq!(cache.request(&handle), Some(GpuCacheAddress { u: 1, v: 0 }));
    let none = builder.primitives().get_metadata(PrimitiveIndex(2)).gpu_handle;
    assert_eq!(cache.request(&none), None);
    // The next frame of the scene draws the same two with the same blocks.
    let next = builder.build(&tree, viewport(), None, &mut cache);
    assert_eq!(next.dropped, 3);
    assert_eq!(next.batcher.opaque_batches()[0].instances, opaque[0].instances);
    assert_eq!(cache.len(), 2);
    // A scene that is new to a full cache gets nothing drawn.
    let again = build(&list, &tree, viewport(), None, &mut cache).unwrap();
    assert_eq!(again.dropped, 5);
    assert_eq!(again.tasks.len(), 1);
    assert!(again.batcher.opaque_batches().is_empty());
}

#[test]
fn a_later_frame_finds_the_blocks_of_an_earlier_one() {
    let tree = ClipScrollTree::new();
    let mut cache = GpuCache::new(4, 4).unwrap();
    let mut list = Vec::new();
    for n in 0..6 {
        let mut info = rect_info(n * 100, 0, n * 100 + 50, 50);
        info.gpu_data = GpuBlock { x: n as u32, y: 0, z: 0, w: 0 };
        list.push(DisplayItem::Draw(info));
    }
    let mut builder = FrameBuilder::new(&list, tree.len()).unwrap();
    // The window shows the first three.
    let first = builder.build(&tree, DeviceRect::new(0, 0, 250, 50), None, &mut cache);
    assert_eq!(cache.len(), 3);
    assert_eq!(cache.flush().len(), 1);
    // It moves on by one: one block is new, and only its row is dirty.
    let second = builder.build(&tree, DeviceRect::new(100, 0, 350, 50), None, &mut cache);
    assert_eq!(cache.len(), 4);
    let shared = &second.batcher.opaque_batches()[0].instances;
    assert_eq!(shared[0].prim_address, 1);
    assert_eq!(shared[0].z_sort_index, 0);
    assert_eq!(shared[0].user_data0, 1);
    assert_eq!(shared[1].prim_address, 2);
    assert_eq!(shared[2].prim_address, 3);
    assert_eq!(first.batcher.opaque_batches()[0].instances[1].prim_address, 1);
    assert_eq!(cache.flush().len(), 1);
    // The same window again: nothing is pushed, nothing is dirty.
    let third = builder.build(&tree, DeviceRect::new(100, 0, 350, 50), None, &mut cache);
    assert_eq!(cache.len(), 4);
    assert!(cache.flush().is_empty());
    assert_eq!(&third.batcher.opaque_batches()[0].instances, shared);
    // After an invalidation the blocks are pushed again.
    cache.invalidate();
    let fourth = builder.build(&tree, DeviceRect::new(100, 0, 350, 50), None, &mut cache);
    assert_eq!(cache.len(), 3);
    assert_eq!(fourth.batcher.opaque_batches()[0].instances[0].prim_address, 0);
    assert_eq!(cache.get(GpuCacheAddress { u: 0, v: 0 }), Some(GpuBlock { x: 1, y: 0, z: 0, w: 0 }));
}

#[test]
fn instances_carry_what_the_shaders_look_up() {
    let tree = ClipScrollTree::new();
    let mut cache = GpuCache::new(4, 4).unwrap();
    let mut warm = webrender::gpu_cache::GpuCacheHandle::new();
    cache.push_block(&mut warm, GpuBlock { x: 0, y: 0, z: 0, w: 0 }).unwrap();
    let mut shadow = rect_info(0, 0, 40, 30);
    shadow.kind = PrimitiveKind::BoxShadow;
    shadow.blur_radius = 5;
    let list = vec![DisplayItem::Draw(rect_info(100, 100, 200, 200)), DisplayItem::Draw(shadow)];
    let color = ColorBits { r: 1, g: 2, b: 3, a: 4 };
    let frame = build(&list, &tree, viewport(), Some(color), &mut cache).unwrap();
    assert_eq!(frame.background_color, Some(color));
    let opaque = frame.batcher.opaque_batches();
    let alpha = frame.batcher.alpha_batches();
    assert_eq!(opaque[0].instances[0].prim_address, 1);
    assert_eq!(opaque[0].instances[0].task_index, 2);
    assert_eq!(opaque[0].instances[0].clip_task_index, -1);
    assert_eq!(opaque[0].instances[0].z_sort_index, 0);
    assert_eq!(alpha[0].instances[0].prim_address, 2);
    assert_eq!(alpha[0].instances[0].task_index, 2);
    assert_eq!(alpha[0].instances[0].z_sort_index, 1);
    assert_eq!(alpha[0].instances[0].user_data0, 1);
    assert_eq!(
        alpha[0].key,
        BatchKey {
            kind: AlphaBatchKind::BoxShadow,
            blend_mode: BlendMode::PremultipliedAlpha,
            textures: BatchTextures::no_texture(),
        }
    );
    assert_eq!(
        frame.blurs,
        vec![
            BlurCommand { task_id: 0, src_task_id: -1, blur_direction: 0 },
            BlurCommand { task_id: 1, src_task_id: -1, blur_direction: 1 },
        ]
    );
    assert_eq!(
        frame.tasks.location(RenderTaskId(0)),
        RenderTaskLocation::Dynamic { width: 40, height: 30 }
    );
    assert_eq!(frame.tasks.payload(RenderTaskId(1)), RenderTaskPayload::Blur { radius: 5 });
    assert_eq!(frame.tasks.location(RenderTaskId(2)), RenderTaskLocation::Framebuffer);
    assert!(frame.clips.is_empty());
}

#[test]
fn resources_and_batches_can_be_made_step_by_step() {
    let info = rect_info(0, 0, 10, 10);
    let masked = VisiblePrimitive {
        info,
        prim: 0,
        node: 3,
        bounds: DeviceRect::new(0, 0, 10, 10),
        mask: Some(2),
        order: 0,
    };
    let mut unknown = masked;
    unknown.prim = 1;
    let mut cache = GpuCache::new(4, 4).unwrap();
    let mut store = flatten(&vec![DisplayItem::PopClip, DisplayItem::Draw(info)]);
    assert_eq!(store.len(), 1);
    let resources = assign_resources(&vec![masked, unknown], &mut store, &mut cache);
    assert_eq!(resources.dropped, 1);
    assert_eq!(resources.draws.len(), 1);
    assert_eq!(cache.request(&store.get_metadata(PrimitiveIndex(0)).gpu_handle).is_some(), true);
    assert_eq!(resources.graph.len(), 1);
    assert_eq!(
        resources.clips,
        vec![CacheClipInstance {
            task_id: 0,
            layer_index: 2,
            address: 0,
            segment: 0,
            resource_address: 0
        }]
    );
    assert_eq!(resources.draws[0].clip_task_index, 0);
    assert_eq!(resources.draws[0].layer_index, 3);
    assert_eq!(batch_key(&masked).blend_mode, BlendMode::Alpha);
    let batcher = batch_draws(&resources.draws, RenderTaskId(1));
    assert_eq!(batcher.alpha_batches()[0].instances[0].task_index, 1);
    assert_eq!(batch_kind(PrimitiveKind::Picture), AlphaBatchKind::Composite);
    assert_eq!(batch_kind(PrimitiveKind::TextRun), AlphaBatchKind::TextRun);
    assert_eq!(to_index(7), 7);
    assert_eq!(to_index(usize::MAX), i32::MAX);
}

#[test]
fn the_next_build_of_a_scene_is_the_same_and_pushes_nothing() {
    let mut tree = ClipScrollTree::new();
    let clip = tree
        .add_node(
            ClipScrollNodeId(0),
            NodeKind::Clip {
                rect: DeviceRect::new(0, 0, 400, 400),
                shape: ClipShape::RoundedRect { radius: 8 },
            },
        )
        .unwrap();
    let mut shadow = rect_info(30, 30, 90, 90);
    shadow.kind = PrimitiveKind::BoxShadow;
    shadow.blur_radius = 3;
    let mut translucent = rect_info(50, 50, 150, 150);
    translucent.is_opaque = false;
    let list = vec![
        DisplayItem::Draw(rect_info(0, 0, 100, 100)),
        DisplayItem::PushClip { node: clip },
        DisplayItem::Draw(shadow),
        DisplayItem::Draw(translucent),
        DisplayItem::PopClip,
        DisplayItem::Draw(rect_info(200, 0, 300, 100)),
    ];
    // The cache has room for three of the four blocks.
    let mut cache = GpuCache::new(3, 1).unwrap();
    let mut builder = FrameBuilder::new(&list, tree.len()).unwrap();
    let first = builder.build(&tree, viewport(), None, &mut cache);
    assert_eq!(first.dropped, 1);
    assert_eq!(cache.len(), 3);
    assert_eq!(cache.flush().len(), 1);
    let second = builder.build(&tree, viewport(), None, &mut cache);
    assert_eq!(cache.len(), 3);
    assert!(cache.flush().is_empty());
    assert_eq!(second.dropped, 1);
    assert_eq!(second.root, first.root);
    assert_eq!(second.tasks.len(), first.tasks.len());
    for t in 0..first.tasks.len() {
        let id = RenderTaskId(t);
        assert_eq!(second.tasks.kind(id), first.tasks.kind(id));
        assert_eq!(second.tasks.location(id), first.tasks.location(id));
        assert_eq!(second.tasks.payload(id), first.tasks.payload(id));
        assert_eq!(second.tasks.dependencies(id), first.tasks.dependencies(id));
    }
    assert_eq!(second.passes.len(), first.passes.len());
    for (a, b) in first.passes.iter().zip(second.passes.iter()) {
        assert_eq!(a.tasks, b.tasks);
    }
    assert_eq!(second.blurs, first.blurs);
    assert_eq!(second.clips, first.clips);
    let pairs = [
        (first.batcher.opaque_batches(), second.batcher.opaque_batches()),
        (first.batcher.alpha_batches(), second.batcher.alpha_batches()),
    ];
    for (a, b) in pairs.iter() {
        assert_eq!(a.len(), b.len());
        for (x, y) in a.iter().zip(b.iter()) {
            assert_eq!(x.key, y.key);
            assert_eq!(x.instances, y.instances);
        }
    }
    assert!(!first.batcher.opaque_batches().is_empty());
}

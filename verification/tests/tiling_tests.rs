use webrender::geometry::DeviceRect;
use webrender::internal_types::{BatchTextures, ColorBits, SourceTexture};
use webrender::renderer::BlendMode;
use webrender::tiling::{AlphaBatchKind, BatchKey, BatchList, Batcher, PrimitiveInstance};

fn instance(n: i32) -> PrimitiveInstance {
    PrimitiveInstance {
        prim_address: n,
        task_index: 0,
        clip_task_index: -1,
        layer_index: 0,
        z_sort_index: n,
        user_data0: 0,
        user_data1: 0,
        user_data2: 0,
    }
}

fn key(kind: AlphaBatchKind, blend_mode: BlendMode) -> BatchKey {
    BatchKey { kind, blend_mode, textures: BatchTextures::no_texture() }
}

fn order(batcher: &Batcher) -> Vec<Vec<i32>> {
    batcher
        .alpha_batches()
        .iter()
        .map(|b| b.instances.iter().map(|i| i.prim_address).collect())
        .collect()
}

#[test]
fn blended_instances_of_one_key_share_a_batch() {
    let mut b = Batcher::new();
    let k = key(AlphaBatchKind::Rectangle, BlendMode::Alpha);
    b.add_instance(k, instance(0), DeviceRect::new(0, 0, 10, 10));
    b.add_instance(k, instance(1), DeviceRect::new(5, 5, 15, 15));
    assert_eq!(order(&b), vec![vec![0, 1]]);
    assert!(b.opaque_batches().is_empty());
}

#[test]
fn an_overlapping_batch_in_between_stops_the_search() {
    let mut b = Batcher::new();
    let rects = key(AlphaBatchKind::Rectangle, BlendMode::Alpha);
    let images = key(AlphaBatchKind::Image, BlendMode::Alpha);
    b.add_instance(rects, instance(0), DeviceRect::new(0, 0, 10, 10));
    b.add_instance(images, instance(1), DeviceRect::new(5, 5, 15, 15));
    // Overlaps the image, so it may not be drawn before it.
    b.add_instance(rects, instance(2), DeviceRect::new(12, 12, 20, 20));
    assert_eq!(order(&b), vec![vec![0], vec![1], vec![2]]);
    let batches = b.alpha_batches();
    assert_eq!(batches[0].key, rects);
    assert_eq!(batches[1].key, images);
    assert_eq!(batches[2].key, rects);
}

#[test]
fn an_instance_passes_batches_that_it_does_not_overlap() {
    let mut b = Batcher::new();
    let rects = key(AlphaBatchKind::Rectangle, BlendMode::Alpha);
    let images = key(AlphaBatchKind::Image, BlendMode::Alpha);
    b.add_instance(rects, instance(0), DeviceRect::new(0, 0, 10, 10));
    b.add_instance(images, instance(1), DeviceRect::new(5, 5, 15, 15));
    b.add_instance(rects, instance(2), DeviceRect::new(100, 100, 120, 120));
    assert_eq!(order(&b), vec![vec![0, 2], vec![1]]);
}

#[test]
fn overlapping_blended_instances_keep_their_paint_order() {
    let mut b = Batcher::new();
    let keys = [
        key(AlphaBatchKind::Rectangle, BlendMode::Alpha),
        key(AlphaBatchKind::Image, BlendMode::Alpha),
        key(AlphaBatchKind::TextRun, BlendMode::Subpixel(ColorBits { r: 1, g: 2, b: 3, a: 4 })),
        key(AlphaBatchKind::Rectangle, BlendMode::PremultipliedAlpha),
    ];
    let mut bounds = Vec::new();
    for n in 0..40i32 {
        let x = (n * 37) % 90;
        let y = (n * 53) % 70;
        let r = DeviceRect::new(x, y, x + 12 + n % 5, y + 9 + n % 7);
        bounds.push(r);
        b.add_instance(keys[(n as usize * 7 + n as usize / 3) % 4], instance(n), r);
    }
    let mut drawn = Vec::new();
    for batch in b.alpha_batches() {
        for i in batch.instances {
            drawn.push(i.prim_address);
        }
    }
    assert_eq!(drawn.len(), 40);
    for (p, first) in drawn.iter().enumerate() {
        for second in drawn.iter().skip(p + 1) {
            if bounds[*first as usize].intersects(&bounds[*second as usize]) {
                assert!(first < second);
            }
        }
    }
    assert!(b.alpha_batches().len() < 40);
}

#[test]
fn opaque_instances_join_any_batch_of_their_key() {
    let mut b = Batcher::new();
    let rects = key(AlphaBatchKind::Rectangle, BlendMode::NoBlend);
    let images = BatchKey {
        kind: AlphaBatchKind::Image,
        blend_mode: BlendMode::NoBlend,
        textures: BatchTextures {
            color0: SourceTexture::TextureCache(4),
            color1: SourceTexture::Invalid,
            color2: SourceTexture::Invalid,
        },
    };
    b.add_instance(rects, instance(0), DeviceRect::new(0, 0, 10, 10));
    b.add_instance(images, instance(1), DeviceRect::new(0, 0, 10, 10));
    b.add_instance(rects, instance(2), DeviceRect::new(0, 0, 10, 10));
    let batches = b.opaque_batches();
    assert_eq!(batches.len(), 2);
    assert_eq!(batches[0].instances, vec![instance(0), instance(2)]);
    assert_eq!(batches[1].instances, vec![instance(1)]);
    assert!(b.alpha_batches().is_empty());
}

#[test]
fn textures_are_part_of_the_key() {
    let mut b = Batcher::new();
    let mut first = key(AlphaBatchKind::Image, BlendMode::Alpha);
    first.textures.color0 = SourceTexture::TextureCache(1);
    let mut second = first;
    second.textures.color0 = SourceTexture::TextureCache(2);
    b.add_instance(first, instance(0), DeviceRect::new(0, 0, 10, 10));
    b.add_instance(second, instance(1), DeviceRect::new(20, 0, 30, 10));
    assert_eq!(order(&b), vec![vec![0], vec![1]]);
    assert!(!SourceTexture::TextureCache(1).is_skipable());
    assert!(SourceTexture::Invalid.is_skipable());
}

#[test]
fn a_batch_list_counts_batches_and_instances() {
    let mut l = BatchList::new();
    let k = key(AlphaBatchKind::Border, BlendMode::Alpha);
    l.add_ordered(k, instance(0), DeviceRect::new(0, 0, 1, 1));
    l.add_ordered(k, instance(1), DeviceRect::new(0, 0, 1, 1));
    l.add_unordered(key(AlphaBatchKind::Gradient, BlendMode::Alpha), instance(2), DeviceRect::zero());
    assert_eq!(l.batch_count(), 2);
    assert_eq!(l.instance_count(), 3);
    assert_eq!(l.batches()[0].instances.len(), 2);
}

use webrender::gpu_cache::{GpuBlock, GpuCache, GpuCacheAddress, GpuCacheHandle};

fn block(n: u32) -> GpuBlock {
    GpuBlock { x: n, y: n + 1, z: n + 2, w: n + 3 }
}

#[test]
fn a_cache_without_width_cannot_be_made() {
    assert!(GpuCache::new(0, 4).is_none());
    let c = GpuCache::new(4, 0).unwrap();
    assert_eq!(c.width(), 4);
    assert_eq!(c.max_rows(), 0);
    assert_eq!(c.generation(), 0);
}

#[test]
fn blocks_fill_rows_from_the_left() {
    let mut c = GpuCache::new(4, 2).unwrap();
    let mut addresses = Vec::new();
    for n in 0..6 {
        let mut h = GpuCacheHandle::new();
        addresses.push(c.push_block(&mut h, block(n)).unwrap());
    }
    assert_eq!(addresses[0], GpuCacheAddress { u: 0, v: 0 });
    assert_eq!(addresses[3], GpuCacheAddress { u: 3, v: 0 });
    assert_eq!(addresses[4], GpuCacheAddress { u: 0, v: 1 });
    assert_eq!(addresses[5], GpuCacheAddress { u: 1, v: 1 });
    assert_eq!(c.len(), 6);
}

#[test]
fn a_requested_address_holds_what_was_pushed() {
    let mut c = GpuCache::new(3, 3).unwrap();
    let mut first = GpuCacheHandle::new();
    let a = c.push_block(&mut first, block(10)).unwrap();
    let mut others = Vec::new();
    for n in 0..5 {
        let mut h = GpuCacheHandle::new();
        c.push_block(&mut h, block(100 + n)).unwrap();
        others.push(h);
    }
    assert_eq!(c.request(&first), Some(a));
    assert_eq!(c.get(a), Some(block(10)));
    for (n, h) in others.iter().enumerate() {
        let at = c.request(h).unwrap();
        assert_eq!(c.get(at), Some(block(100 + n as u32)));
    }
}

#[test]
fn a_full_cache_takes_no_block() {
    let mut c = GpuCache::new(2, 1).unwrap();
    let mut h = GpuCacheHandle::new();
    assert!(c.push_block(&mut h, block(0)).is_some());
    assert!(c.push_block(&mut h, block(1)).is_some());
    let kept = h;
    assert_eq!(c.push_block(&mut h, block(2)), None);
    assert_eq!(h, kept);
    assert_eq!(c.len(), 2);
}

#[test]
fn a_handle_that_was_never_pushed_is_not_resident() {
    let c = GpuCache::new(2, 2).unwrap();
    assert_eq!(c.request(&GpuCacheHandle::new()), None);
    assert_eq!(c.get(GpuCacheAddress { u: 0, v: 0 }), None);
    assert_eq!(c.get(GpuCacheAddress { u: 2, v: 0 }), None);
}

#[test]
fn invalidation_starts_a_new_generation() {
    let mut c = GpuCache::new(2, 2).unwrap();
    let mut h = GpuCacheHandle::new();
    c.push_block(&mut h, block(0)).unwrap();
    c.invalidate();
    assert_eq!(c.generation(), 1);
    assert_eq!(c.len(), 0);
    assert_eq!(c.request(&h), None);
    assert!(c.flush().is_empty());
    let mut again = GpuCacheHandle::new();
    let a = c.push_block(&mut again, block(7)).unwrap();
    assert_eq!(a, GpuCacheAddress { u: 0, v: 0 });
    assert_eq!(c.request(&h), None);
    assert_eq!(c.request(&again), Some(a));
}

#[test]
fn a_flush_hands_out_only_the_dirty_rows() {
    let mut c = GpuCache::new(2, 4).unwrap();
    for n in 0..3 {
        let mut h = GpuCacheHandle::new();
        c.push_block(&mut h, block(n)).unwrap();
    }
    let first = c.flush();
    assert_eq!(first.len(), 2);
    assert_eq!(first[0].row, 0);
    assert_eq!(first[0].blocks, vec![block(0), block(1)]);
    assert_eq!(first[1].row, 1);
    assert_eq!(first[1].blocks, vec![block(2)]);
    assert!(c.flush().is_empty());
    for n in 3..6 {
        let mut h = GpuCacheHandle::new();
        c.push_block(&mut h, block(n)).unwrap();
    }
    let second = c.flush();
    assert_eq!(second.len(), 2);
    assert_eq!(second[0].row, 1);
    assert_eq!(second[0].blocks, vec![block(2), block(3)]);
    assert_eq!(second[1].row, 2);
    assert_eq!(second[1].blocks, vec![block(4), block(5)]);
    assert_eq!(c.len(), 6);
}

#[test]
fn a_released_handle_names_no_block() {
    let mut c = GpuCache::new(2, 2).unwrap();
    let mut h = GpuCacheHandle::new();
    let a = c.push_block(&mut h, block(3)).unwrap();
    assert_eq!(c.request(&h), Some(a));
    h.release();
    assert_eq!(h, GpuCacheHandle::new());
    assert_eq!(c.request(&h), None);
    // The block stays where it was until the cache is invalidated.
    assert_eq!(c.get(a), Some(block(3)));
    assert_eq!(c.len(), 1);
}

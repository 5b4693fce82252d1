use webrender::device::{
    texture_dimensions, BoundTextures, CacheTextureInfo, DataTextureKind, Device, FrameId,
    GpuFrameProfile, GpuMarker, GpuProfiler, NamedTag, QuerySet, VertexAttribute,
    VertexAttributeKind, VertexDescriptor, DITHER, DUMMY_A8, DUMMY_RGBA8, FIRST_UNRESERVED_ID,
    LAYER_TEXTURE_WIDTH, MAX_PROFILE_FRAMES, RENDER_TASK_TEXTURE_WIDTH, TEXTURE_HEIGTH,
};
use webrender::internal_types::TextureSampler;
use webrender::tiling::RenderTargetKind;

#[derive(Debug, Clone, PartialEq)]
struct Tag(&'static str);

impl NamedTag for Tag {
    fn get_label(&self) -> &str {
        self.0
    }
}

#[test]
fn frame_ids_count_up() {
    let f = FrameId::new(4);
    assert_eq!(f.as_usize(), 4);
    assert_eq!((f + 3).as_usize(), 7);
    assert_eq!(f + 0, f);
    assert!(FrameId::new(1) < FrameId::new(2));
}

#[test]
fn attribute_sizes_add_up_to_the_stride() {
    assert_eq!(VertexAttributeKind::F32.size_in_bytes(), 4);
    assert_eq!(VertexAttributeKind::U8Norm.size_in_bytes(), 1);
    assert_eq!(VertexAttributeKind::I32.size_in_bytes(), 4);
    assert_eq!(VertexAttributeKind::U16.size_in_bytes(), 2);
    static VERTEX: [VertexAttribute; 1] =
        [VertexAttribute { name: "aPosition", count: 3, kind: VertexAttributeKind::F32 }];
    static INSTANCE: [VertexAttribute; 3] = [
        VertexAttribute { name: "aDataA", count: 4, kind: VertexAttributeKind::I32 },
        VertexAttribute { name: "aColor", count: 4, kind: VertexAttributeKind::U8Norm },
        VertexAttribute { name: "aIndex", count: 3, kind: VertexAttributeKind::U16 },
    ];
    assert_eq!(INSTANCE[0].size_in_bytes(), 16);
    let d = VertexDescriptor { vertex_attributes: &VERTEX, instance_attributes: &INSTANCE };
    assert_eq!(d.instance_stride(), 26);
    let none = VertexDescriptor { vertex_attributes: &VERTEX, instance_attributes: &[] };
    assert_eq!(none.instance_stride(), 0);
}

#[test]
fn texture_sides_are_kept_to_sixteen_bits() {
    assert_eq!(texture_dimensions([1017, 64]), (1017, 64));
    assert_eq!(texture_dimensions([65536 + 5, 65535]), (5, 65535));
    let sizes = Device::data_texture_sizes(1024);
    assert_eq!(sizes.layers, (LAYER_TEXTURE_WIDTH, 64));
    assert_eq!(sizes.render_tasks, (RENDER_TASK_TEXTURE_WIDTH, TEXTURE_HEIGTH));
    assert_eq!(sizes.resource_cache, (1024, 1024));
}

#[test]
fn a_query_set_hands_out_what_was_added() {
    let mut q: QuerySet<u32> = QuerySet::new();
    q.add(1);
    q.add(2);
    assert_eq!(q.take(), vec![1, 2]);
    assert!(q.take().is_empty());
    q.add(3);
    q.reset();
    assert!(q.take().is_empty());
}

#[test]
fn a_frame_profile_collects_timers() {
    let mut p: GpuFrameProfile<Tag> = GpuFrameProfile::new();
    assert!(p.is_valid());
    p.begin_frame(FrameId::new(9));
    let _first = p.add_marker(Tag("opaque"));
    p.add_sampler(Tag("ignored"));
    p.done_sampler();
    p.done_marker();
    let _second = p.add_marker(Tag("alpha"));
    p.end_frame();
    let (timers, samplers) = p.build_samples();
    assert_eq!(timers.len(), 2);
    assert_eq!(timers[0].tag, Tag("opaque"));
    assert_eq!(timers[0].time_ns, 0);
    assert_eq!(timers[1].tag, Tag("alpha"));
    assert!(samplers.is_empty());
    let (again, _) = p.build_samples();
    assert!(again.is_empty());
}

#[test]
fn the_profiler_goes_round_its_ring() {
    let mut p: GpuProfiler<Tag> = GpuProfiler::new();
    assert!(!p.is_inside_frame());
    for frame in 0..MAX_PROFILE_FRAMES + 1 {
        if frame >= MAX_PROFILE_FRAMES {
            // The oldest profile is read before its place is used again.
            let (id, timers, samplers) = p.build_samples().unwrap();
            assert_eq!(id, FrameId::new(0));
            assert_eq!(timers.len(), 1);
            assert_eq!(timers[0].tag, Tag("frame"));
            assert!(samplers.is_empty());
        }
        p.begin_frame(FrameId::new(frame));
        assert!(p.is_inside_frame());
        let _marker = p.add_marker(Tag("frame"));
        p.add_sampler(Tag("sampler"));
        p.done_sampler();
        p.end_frame();
        assert!(!p.is_inside_frame());
    }
    let (id, timers, _) = p.build_samples().unwrap();
    assert_eq!(id, FrameId::new(1));
    assert_eq!(timers.len(), 1);
    let _m = GpuMarker::new("label");
    GpuMarker::fire("label");
}

#[test]
fn a_new_device_has_its_dummy_textures() {
    let d = Device::new();
    assert_eq!(d.max_texture_size(), 1024);
    assert!(!d.get_capabilities().supports_multisampling);
    assert!(!d.is_inside_frame());
    assert_eq!(d.current_frame_id(), FrameId::new(0));
    assert_eq!(d.dummy_cache_a8(), CacheTextureInfo { width: 1, height: 1 });
    assert_eq!(d.dummy_cache_rgba8(), CacheTextureInfo { width: 1, height: 1 });
    assert!(d.has_texture(DUMMY_A8));
    assert!(d.has_texture(DUMMY_RGBA8));
    assert!(!d.has_texture(DITHER));
    assert_eq!(
        d.get_bound_textures(),
        BoundTextures {
            color0: DUMMY_RGBA8,
            color1: DUMMY_RGBA8,
            color2: DUMMY_RGBA8,
            cache_a8: DUMMY_A8,
            cache_rgba8: DUMMY_RGBA8,
            shared_cache_a8: DUMMY_A8,
        }
    );
}

#[test]
fn frames_begin_and_end() {
    let mut d = Device::new();
    assert_eq!(d.begin_frame(), FrameId::new(0));
    assert!(d.is_inside_frame());
    d.end_frame();
    assert!(!d.is_inside_frame());
    d.reset_state();
    assert_eq!(d.begin_frame(), FrameId::new(1));
}

#[test]
fn binding_a_texture_changes_its_slot_only() {
    let mut d = Device::new();
    d.begin_frame();
    d.bind_texture(TextureSampler::Color1, 7);
    d.bind_texture(TextureSampler::SharedCacheA8, 8);
    d.bind_texture(TextureSampler::Layers, 9);
    d.bind_texture(TextureSampler::Dither, 10);
    assert_eq!(
        d.get_bound_textures(),
        BoundTextures {
            color0: DUMMY_RGBA8,
            color1: 7,
            color2: DUMMY_RGBA8,
            cache_a8: DUMMY_A8,
            cache_rgba8: DUMMY_RGBA8,
            shared_cache_a8: 8,
        }
    );
    d.bind_texture(TextureSampler::Color0, 1);
    d.bind_texture(TextureSampler::Color2, 2);
    d.bind_texture(TextureSampler::CacheA8, 3);
    d.bind_texture(TextureSampler::CacheRGBA8, 4);
    assert_eq!(
        d.get_bound_textures(),
        BoundTextures {
            color0: 1,
            color1: 7,
            color2: 2,
            cache_a8: 3,
            cache_rgba8: 4,
            shared_cache_a8: 8,
        }
    );
    assert_eq!(Device::data_texture_for(TextureSampler::Layers), Some(DataTextureKind::Layers));
    assert_eq!(
        Device::data_texture_for(TextureSampler::RenderTasks),
        Some(DataTextureKind::RenderTasks)
    );
    assert_eq!(
        Device::data_texture_for(TextureSampler::ResourceCache),
        Some(DataTextureKind::ResourceCache)
    );
    assert_eq!(Device::data_texture_for(TextureSampler::Color0), None);
}

#[test]
fn the_first_cache_texture_gets_the_first_free_id() {
    let mut d = Device::new();
    assert_eq!(d.generate_texture_id(), Some(FIRST_UNRESERVED_ID));
    assert_eq!(d.create_cache_texture(64, 32, RenderTargetKind::Alpha), Some(FIRST_UNRESERVED_ID));
    assert_eq!(
        d.cache_texture(FIRST_UNRESERVED_ID, RenderTargetKind::Alpha),
        Some(CacheTextureInfo { width: 64, height: 32 })
    );
    assert_eq!(d.cache_texture(FIRST_UNRESERVED_ID, RenderTargetKind::Color), None);
    assert_eq!(d.first_free_id(), Some(FIRST_UNRESERVED_ID + 1));
}

#[test]
fn later_ids_are_drawn_from_the_free_ones() {
    let mut d = Device::new();
    let mut seen = vec![DUMMY_A8, DUMMY_RGBA8];
    for n in 0..40 {
        let kind = if n % 2 == 0 { RenderTargetKind::Color } else { RenderTargetKind::Alpha };
        let candidate = d.generate_texture_id().unwrap();
        assert!(!d.has_texture(candidate));
        let id = d.create_cache_texture(n, n + 1, kind).unwrap();
        assert!(id >= FIRST_UNRESERVED_ID && id < u32::MAX);
        assert!(!seen.contains(&id));
        seen.push(id);
        assert_eq!(d.cache_texture(id, kind), Some(CacheTextureInfo { width: n, height: n + 1 }));
        assert!(d.has_texture(id));
    }
    // Forty draws from four billion numbers do not all give the smallest.
    assert!(seen.iter().any(|id| *id > 1000));
}

#[test]
fn only_free_unreserved_ids_are_picked() {
    let mut d = Device::new();
    assert_eq!(d.pick_texture_id(0), None);
    assert_eq!(d.pick_texture_id(DITHER), None);
    assert_eq!(d.pick_texture_id(u32::MAX), None);
    assert_eq!(d.pick_texture_id(12345), Some(12345));
    d.create_cache_texture(1, 1, RenderTargetKind::Color);
    assert_eq!(d.pick_texture_id(FIRST_UNRESERVED_ID), None);
}

#[test]
fn a_new_profiler_reads_frame_zero_from_a_place_that_was_never_written() {
    let mut p: GpuProfiler<Tag> = GpuProfiler::new();
    p.begin_frame(FrameId::new(9));
    let _marker = p.add_marker(Tag("first"));
    p.end_frame();
    // The place that is read is the next one of the ring, not the one of
    // the frame that has just ended.
    let (id, timers, samplers) = p.build_samples().unwrap();
    assert_eq!(id, FrameId::new(0));
    assert!(timers.is_empty());
    assert!(samplers.is_empty());
    // Three frames later the timers of frame 9 come out.
    for frame in 10..13 {
        p.begin_frame(FrameId::new(frame));
        p.end_frame();
    }
    let (id, timers, _) = p.build_samples().unwrap();
    assert_eq!(id, FrameId::new(9));
    assert_eq!(timers.len(), 1);
    assert_eq!(timers[0].tag, Tag("first"));
}

use webrender::device::MAX_INSTANCE_COUNT;
use webrender::internal_types::ColorBits;
use webrender::pipelines::{
    alpha, blend_value, blur_pso_descriptor, cache_pso_descriptors, cache_pso_index,
    clip_pso_descriptors, clip_pso_index, debug_pso_descriptor, max, multiply,
    pack_blur_instances, pack_clip_instances, pack_primitive_instances, premultiplied_alpha,
    prim_pso_descriptors, prim_pso_index, subpixel, BlendValue, BlurInstances, ClipInstances,
    DepthState, Equation, Factor, PrimitiveInstances, UploadCursor,
};
use webrender::renderer::BlendMode;
use webrender::tiling::{BlurCommand, CacheClipInstance, PrimitiveInstance};

fn text() -> BlendMode {
    BlendMode::Subpixel(ColorBits { r: 1, g: 2, b: 3, a: 4 })
}

#[test]
fn blend_states_are_what_the_shaders_expect() {
    assert_eq!(alpha().color.source, Factor::ZeroPlus(BlendValue::SourceAlpha));
    assert_eq!(alpha().color.destination, Factor::OneMinus(BlendValue::SourceAlpha));
    assert_eq!(alpha().alpha.source, Factor::One);
    assert_eq!(premultiplied_alpha().color.source, Factor::One);
    assert_eq!(premultiplied_alpha().color, premultiplied_alpha().alpha);
    assert_eq!(subpixel().color.source, Factor::ZeroPlus(BlendValue::ConstColor));
    assert_eq!(subpixel().alpha.destination, Factor::OneMinus(BlendValue::SourceColor));
    assert_eq!(multiply().color.source, Factor::Zero);
    assert_eq!(multiply().color.destination, Factor::ZeroPlus(BlendValue::SourceColor));
    assert_eq!(multiply().alpha.destination, Factor::ZeroPlus(BlendValue::SourceAlpha));
    assert_eq!(max().color.equation, Equation::Max);
    assert_eq!(max().alpha.equation, Equation::Add);
    assert_eq!(max().color.destination, Factor::One);
}

#[test]
fn a_draw_call_picks_the_pipeline_of_its_blend_mode() {
    let d = prim_pso_descriptors();
    assert_eq!(d.len(), 8);
    let modes = [
        (BlendMode::NoBlend, None),
        (BlendMode::Alpha, Some(alpha())),
        (BlendMode::PremultipliedAlpha, Some(premultiplied_alpha())),
        (text(), Some(subpixel())),
        (BlendMode::Multiply, None),
        (BlendMode::Max, None),
        (BlendMode::Min, None),
    ];
    for (mode, blend) in modes.iter() {
        let write = prim_pso_index(mode, true);
        let test = prim_pso_index(mode, false);
        assert_eq!(test, write + 1);
        assert_eq!(d[write].blend, *blend);
        assert_eq!(d[test].blend, *blend);
        assert_eq!(d[write].depth, DepthState::LessEqualWrite);
        assert_eq!(d[test].depth, DepthState::LessEqualTest);
    }
    assert_eq!(prim_pso_index(&BlendMode::NoBlend, true), 0);
    assert_eq!(prim_pso_index(&BlendMode::Alpha, false), 3);
    assert_eq!(prim_pso_index(&BlendMode::PremultipliedAlpha, true), 4);
    assert_eq!(prim_pso_index(&text(), false), 7);
}

#[test]
fn cache_and_clip_pipelines() {
    let cache = cache_pso_descriptors();
    assert_eq!(cache.len(), 2);
    assert_eq!(cache_pso_index(&BlendMode::Alpha), 1);
    assert_eq!(cache_pso_index(&BlendMode::NoBlend), 0);
    assert_eq!(cache_pso_index(&BlendMode::PremultipliedAlpha), 0);
    assert_eq!(cache[1].blend, Some(alpha()));
    assert_eq!(cache[0].blend, None);
    let clip = clip_pso_descriptors();
    assert_eq!(clip.len(), 3);
    assert_eq!(clip_pso_index(&BlendMode::Multiply), 1);
    assert_eq!(clip_pso_index(&BlendMode::Max), 2);
    assert_eq!(clip_pso_index(&BlendMode::Alpha), 0);
    assert_eq!(clip[1].blend, Some(multiply()));
    assert_eq!(clip[2].blend, Some(max()));
    assert_eq!(clip[0].depth, DepthState::Unused);
    assert_eq!(blur_pso_descriptor().depth, DepthState::Never);
    assert_eq!(blur_pso_descriptor().blend, None);
    assert_eq!(debug_pso_descriptor().blend, Some(alpha()));
}

#[test]
fn only_subpixel_text_sets_a_blend_colour() {
    assert_eq!(blend_value(&text()), Some(ColorBits { r: 1, g: 2, b: 3, a: 4 }));
    assert_eq!(blend_value(&BlendMode::Alpha), None);
}

#[test]
fn instances_go_into_the_buffer_field_by_field() {
    let p = PrimitiveInstances::new();
    assert_eq!(p.data0, [0; 4]);
    assert_eq!(p.data1, [0; 4]);
    let instance = PrimitiveInstance {
        prim_address: 1,
        task_index: 2,
        clip_task_index: 3,
        layer_index: 4,
        z_sort_index: 5,
        user_data0: 6,
        user_data1: 7,
        user_data2: 8,
    };
    let mut slot = PrimitiveInstances::new();
    slot.update(&instance);
    assert_eq!(slot.data0, [1, 2, 3, 4]);
    assert_eq!(slot.data1, [5, 6, 7, 8]);
    let packed = pack_primitive_instances(&vec![instance, instance]);
    assert_eq!(packed.len(), 2);
    assert_eq!(packed[1].data1, [5, 6, 7, 8]);

    let mut blur = BlurInstances::new();
    assert_eq!(blur, BlurInstances { render_task_index: 0, source_task_index: 0, direction: 0 });
    blur.update(&BlurCommand { task_id: 4, src_task_id: 5, blur_direction: 1 });
    assert_eq!(blur, BlurInstances { render_task_index: 4, source_task_index: 5, direction: 1 });
    assert_eq!(
        pack_blur_instances(&vec![BlurCommand { task_id: 4, src_task_id: 5, blur_direction: 1 }]),
        vec![blur]
    );

    let mut clip = ClipInstances::new();
    assert_eq!(clip.render_task_index + clip.layer_index + clip.data_index, 0);
    assert_eq!(clip.segment_index + clip.resource_address, 0);
    let source = CacheClipInstance {
        task_id: 1,
        layer_index: 2,
        address: 3,
        segment: 4,
        resource_address: 5,
    };
    clip.update(&source);
    assert_eq!(
        clip,
        ClipInstances {
            render_task_index: 1,
            layer_index: 2,
            data_index: 3,
            segment_index: 4,
            resource_address: 5
        }
    );
    assert_eq!(pack_clip_instances(&vec![source]), vec![clip]);
}

#[test]
fn the_upload_buffer_takes_no_more_than_it_holds() {
    let mut c = UploadCursor::new();
    assert_eq!(c.reserve(10), Some(0));
    assert_eq!(c.reserve(MAX_INSTANCE_COUNT - 10), Some(10));
    assert_eq!(c.offset(), MAX_INSTANCE_COUNT);
    assert_eq!(c.reserve(1), None);
    assert_eq!(c.reserve(0), Some(MAX_INSTANCE_COUNT));
    c.reset_upload_offset();
    assert_eq!(c.offset(), 0);
    assert_eq!(c.reserve(MAX_INSTANCE_COUNT + 1), None);
    assert_eq!(c.offset(), 0);
}

use webrender::clip_scroll_tree::ClipScrollTree;
use webrender::device::{ShaderError, TextureFilter};
use webrender::frame_builder::{build, BuildError, DisplayItem, Frame, PrimitiveInfo};
use webrender::geometry::DeviceRect;
use webrender::gpu_cache::{GpuBlock, GpuCache};
use webrender::internal_types::{ColorBits, SourceTexture};
use webrender::prim_store::PrimitiveKind;
use webrender::renderer::{
    effective_max_texture_size, pad_to_rows, Epoch, GpuStoreLayout, GradientDataTextureLayout,
    ImageFormat, InitError, PipelineId, RenderAction, RendererFrame, RendererState, ResultMsg,
    VertexDataTextureLayout, DEFAULT_WORKER_COUNT, GPU_DATA_TEXTURE_POOL,
    MAX_VERTEX_TEXTURE_WIDTH,
};

fn frame_of(list: &Vec<DisplayItem>, color: Option<ColorBits>) -> Result<Frame, BuildError> {
    let tree = ClipScrollTree::new();
    let mut cache = GpuCache::new(8, 8).unwrap();
    build(list, &tree, DeviceRect::new(0, 0, 100, 100), color, &mut cache)
}

fn one_rect() -> Vec<DisplayItem> {
    vec![DisplayItem::Draw(PrimitiveInfo {
        kind: PrimitiveKind::Rectangle,
        rect: DeviceRect::new(0, 0, 10, 10),
        clip_rect: DeviceRect::new(0, 0, 10, 10),
        is_opaque: true,
        blur_radius: 0,
        texture: SourceTexture::Invalid,
        gpu_data: GpuBlock { x: 0, y: 0, z: 0, w: 0 },
    })]
}

#[test]
fn a_failed_build_leaves_the_current_frame() {
    let blue = ColorBits { r: 0, g: 0, b: 0x3f80_0000, a: 0x3f80_0000 };
    let mut state = RendererState::new();
    assert!(!state.has_frame());
    assert_eq!(state.render_action(), RenderAction::NoFrame);
    let ok = state.present(frame_of(&one_rect(), Some(blue)), vec![(PipelineId(0, 1), Epoch(4))]);
    assert_eq!(ok, None);
    assert!(state.has_frame());
    assert_eq!(state.render_action(), RenderAction::Draw { clear: Some(blue) });
    assert_eq!(state.epoch(PipelineId(0, 1)), Some(Epoch(4)));
    let unbalanced = vec![DisplayItem::PopStackingContext];
    let failed = state.present(frame_of(&unbalanced, None), vec![(PipelineId(0, 1), Epoch(5))]);
    assert_eq!(failed, Some(BuildError::UnbalancedPop));
    assert!(state.has_frame());
    assert_eq!(state.render_action(), RenderAction::Draw { clear: Some(blue) });
    assert_eq!(state.epoch(PipelineId(0, 1)), Some(Epoch(4)));
}

#[test]
fn the_newest_frame_is_the_current_one() {
    let mut state = RendererState::new();
    let red = ColorBits { r: 1, g: 0, b: 0, a: 1 };
    let green = ColorBits { r: 0, g: 1, b: 0, a: 1 };
    state.accept(ResultMsg::NewFrame(RendererFrame {
        pipeline_epoch_map: vec![(PipelineId(1, 0), Epoch(1)), (PipelineId(0, 1), Epoch(2))],
        frame: Some(frame_of(&one_rect(), Some(red)).unwrap()),
    }));
    state.accept(ResultMsg::RefreshShader("ps_rectangle".to_string()));
    assert_eq!(state.render_action(), RenderAction::Draw { clear: Some(red) });
    state.accept(ResultMsg::NewFrame(RendererFrame {
        pipeline_epoch_map: vec![(PipelineId(1, 0), Epoch(7)), (PipelineId(1, 0), Epoch(8))],
        frame: Some(frame_of(&one_rect(), Some(green)).unwrap()),
    }));
    assert_eq!(state.render_action(), RenderAction::Draw { clear: Some(green) });
    assert_eq!(state.epoch(PipelineId(1, 0)), Some(Epoch(8)));
    assert_eq!(state.epoch(PipelineId(0, 1)), Some(Epoch(2)));
    assert_eq!(state.epoch(PipelineId(1, 1)), None);
    state.accept(ResultMsg::NewFrame(RendererFrame { pipeline_epoch_map: vec![], frame: None }));
    assert_eq!(state.render_action(), RenderAction::NothingBuilt);
    let frame = frame_of(&one_rect(), None).unwrap();
    assert!(!RendererState::frame_is_empty(&frame));
}

#[test]
fn the_renderer_asks_for_no_more_than_the_device_can_do() {
    assert_eq!(effective_max_texture_size(4096, None), 4096);
    assert_eq!(effective_max_texture_size(4096, Some(1024)), 1024);
    assert_eq!(effective_max_texture_size(4096, Some(8192)), 4096);
    assert_eq!(DEFAULT_WORKER_COUNT, 4);
    assert_eq!(GPU_DATA_TEXTURE_POOL, 5);
}

#[test]
fn data_texture_layouts() {
    assert_eq!(VertexDataTextureLayout::image_format(), ImageFormat::RGBAF32);
    assert_eq!(VertexDataTextureLayout::texture_filter(), TextureFilter::Nearest);
    assert_eq!(VertexDataTextureLayout::texel_size(), 16);
    assert_eq!(VertexDataTextureLayout::texture_width(16), MAX_VERTEX_TEXTURE_WIDTH);
    assert_eq!(VertexDataTextureLayout::texture_width(48), 1023);
    assert_eq!(VertexDataTextureLayout::texture_width(16 * 5), 1020);
    assert_eq!(VertexDataTextureLayout::texture_width(16 * 2000), 0);
    assert_eq!(GradientDataTextureLayout::image_format(), ImageFormat::RGBA8);
    assert_eq!(GradientDataTextureLayout::texture_filter(), TextureFilter::Linear);
    assert_eq!(GradientDataTextureLayout::texel_size(), 4);
    assert_eq!(GradientDataTextureLayout::texture_width(2048), 512);
    assert_eq!(ImageFormat::Invalid.bytes_per_pixel(), None);
    assert_eq!(ImageFormat::A8.bytes_per_pixel(), Some(1));
    assert_eq!(ImageFormat::RG8.bytes_per_pixel(), Some(2));
    assert_eq!(ImageFormat::RGB8.bytes_per_pixel(), Some(3));
    assert_eq!(ImageFormat::RGBA8.bytes_per_pixel(), Some(4));
    assert_eq!(ImageFormat::BGRA8.bytes_per_pixel(), Some(4));
    assert_eq!(ImageFormat::RGBAF32.bytes_per_pixel(), Some(16));
}

#[test]
fn the_last_row_of_a_data_texture_is_filled() {
    let mut data = vec![1u8, 2, 3, 4, 5];
    assert_eq!(pad_to_rows(&mut data, 4, 0), 2);
    assert_eq!(data, vec![1, 2, 3, 4, 5, 0, 0, 0]);
    assert_eq!(pad_to_rows(&mut data, 4, 9), 2);
    assert_eq!(data.len(), 8);
    let mut empty: Vec<u8> = Vec::new();
    assert_eq!(pad_to_rows(&mut empty, 3, 7), 0);
    assert!(empty.is_empty());
    let mut one = vec![5u16];
    assert_eq!(pad_to_rows(&mut one, 1, 0), 1);
    assert_eq!(one, vec![5]);
}

#[test]
fn init_errors_wrap_their_causes() {
    let shader = ShaderError::Compilation("ps_blur".to_string(), "syntax".to_string());
    match InitError::from(shader) {
        InitError::Shader(ShaderError::Compilation(name, message)) => {
            assert_eq!(name, "ps_blur");
            assert_eq!(message, "syntax");
        }
        _ => unreachable!(),
    }
    let io = std::io::Error::new(std::io::ErrorKind::Other, "no thread");
    assert!(matches!(InitError::from(io), InitError::Thread(_)));
}

#[test]
fn the_current_frame_can_be_read() {
    let mut state = RendererState::new();
    assert!(state.frame().is_none());
    let red = ColorBits { r: 1, g: 0, b: 0, a: 1 };
    state.accept(ResultMsg::NewFrame(RendererFrame {
        pipeline_epoch_map: vec![],
        frame: Some(frame_of(&one_rect(), Some(red)).unwrap()),
    }));
    let frame = state.frame().unwrap();
    assert_eq!(frame.background_color, Some(red));
    assert_eq!(frame.batcher.opaque_batches().len(), 1);
    state.accept(ResultMsg::NewFrame(RendererFrame { pipeline_epoch_map: vec![], frame: None }));
    assert!(state.frame().is_none());
}

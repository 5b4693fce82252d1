use vstd::prelude::*;

pub mod clip_scroll_tree;
pub mod debug_render;
pub mod device;
pub mod frame_builder;
pub mod geometry;
pub mod gpu_cache;
pub mod internal_types;
pub mod pipelines;
pub mod prim_store;
pub mod reftest;
pub mod render_target;
pub mod render_task;
pub mod renderer;
pub mod texture_cache;
pub mod tiling;

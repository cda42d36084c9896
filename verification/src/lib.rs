//! Terminal graphics without a terminal: the framebuffer every media source converges on, the
//! rules that fill it, and the policies of the viewers that show it.

pub mod single;
pub mod text;
pub mod span;
pub mod error;
pub mod color;
pub mod viewport;
pub mod framebuffer;
pub mod terminal_frame;
pub mod line;
pub mod source;
pub mod animation;
pub mod geometry;
pub mod weld;
pub mod raster;
pub mod fill;
pub mod wire;
pub mod simplify;
pub mod stl;
pub mod primitives;
pub mod grid;
pub mod blend;
pub mod anim;
pub mod pose;
pub mod gltf;
pub mod aspect;
pub mod preprocess;
pub mod decode;
pub mod render;
pub mod gif;
pub mod media;
pub mod cli;
pub mod config;
pub mod dispatch;
pub mod terminal;
pub mod viewer_chrome;
pub mod image_viewer;
pub mod mesh_viewer;
pub mod stream;
pub mod playback_viewer;
pub mod widget;
pub mod info;

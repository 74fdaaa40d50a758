//! Verified core of an HDR image viewer with live-editable shaders: an
//! invalidation-driven artifact cache, shader include resolution, compiler
//! diagnostics remapping, and the shader registry that ties them together.

pub mod app_state;
pub mod cache;
pub mod capture;
pub mod compiler;
pub mod diagnostics;
pub mod image_loading;
pub mod image_pool;
pub mod include_path;
pub mod lut_lib;
pub mod path;
pub mod preprocess;
pub mod scanner;
pub mod setup;
pub mod shader;
pub mod shader_lib;
pub mod shader_work;
pub mod text;
pub mod texture;
pub mod watch;

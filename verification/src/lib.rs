//! Real-time playback of text-art frames in a terminal: frame storage,
//! centering geometry, line-granular diff rendering and frame pacing.

pub mod convert;
pub mod error;
pub mod frame;
pub mod geometry;
pub mod pacing;
pub mod playback;
pub mod render;
pub mod source;
pub mod text;

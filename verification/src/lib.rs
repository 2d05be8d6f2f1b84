//! Frame renderer: fills a pixel buffer with a deterministic pattern and
//! computes the letterbox rectangle that centers the buffer, uniformly
//! scaled, inside a display surface.

pub mod events;
pub mod pattern;
pub mod renderer;
pub mod scale;

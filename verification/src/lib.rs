//! A minimal real-time presentation core: a pixel buffer is uploaded into a
//! stride-padded streaming texture, composited onto a destination surface at
//! one or more placements, while a tracker folds keyboard events into a
//! directional-input state and a loop-liveness flag.
//!
//! The windowing backend, the event source and the image decoder are outside
//! collaborators: they live at the program's edge and hand this library plain
//! values (bytes, dimensions, events).

pub mod input;
pub mod pixel;
pub mod surface;
pub mod texture;

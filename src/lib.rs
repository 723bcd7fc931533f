//! An immediate-mode 2D drawing library: a frame's drawing calls are recorded
//! into an ordered command buffer, rasterized into a packed RGBA buffer at a
//! fixed logical resolution, and handed on for presentation.
pub mod backend;
mod color;
mod config;
mod engine;
mod font;
pub mod graphics;
pub mod input;
pub mod raster;
pub mod scheduler;
mod vector;

pub use backend::PixelsBackend;
pub use color::Color;
pub use config::{Config, ConfigBuilder};
pub use engine::Engine;
pub use graphics::{DrawCommand, Graphics};
pub use scheduler::{FrameScheduler, TickAction};
pub use input::{EdgeState, EdgeTracker, IdSet, Input, InputEvent};
pub use vector::Vec2;

//! Driver library for a 4-gray-level e-paper panel: a raster canvas that
//! quantizes drawn samples to the panel's 2-bit color model, encoders that
//! pack quantized pixels into the controller's bit-plane byte layouts, and a
//! command-stream generator for the controller's init/refresh/halt protocol.

pub mod canvas;
pub mod e_paper;
pub mod error;
pub mod fmt;
pub mod font;
pub mod log;
pub mod net;
pub mod scd41;
pub mod utils;

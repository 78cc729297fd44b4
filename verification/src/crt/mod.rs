//! The picture tube: its settings, what they accept, and how a source becomes a signal.
pub mod canvas;
pub mod config;
pub mod input;
pub mod kernel;
pub mod lut;
pub mod mesh;
pub mod nes_luts;
pub mod palette;
pub mod picture;
pub mod prepare;
pub mod preset;
pub mod render;
pub mod settings;
pub mod source;
pub mod texture;

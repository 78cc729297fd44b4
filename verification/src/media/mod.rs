//! Moving pictures: what a file holds, and what FFmpeg is told to read and write it.
pub mod animated;
pub mod animation;
pub mod args;
pub mod decode;
pub mod export;
pub mod frames;
pub mod json;
pub mod kind;
pub mod metadata;
pub mod options;
pub mod plan;
pub mod probe;

//! A CRT display simulator's rules: sizes, settings, files, export plans and schedules.
pub mod cli;
pub mod crt;
pub mod decimal;
pub mod desktop;
pub mod fixed;
pub mod float;
pub mod margin;
pub mod media;
pub mod number;
pub mod path;
pub mod text;

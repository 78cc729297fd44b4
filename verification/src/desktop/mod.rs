//! The application around the simulator: what it previews, queues, saves and shows.
pub mod app;
pub mod batch;
pub mod chrome;
pub mod dialogs;
pub mod export_ui;
pub mod files;
pub mod galleries;
pub mod gallery;
pub mod model;
pub mod playback;
pub mod preview_ui;
pub mod schedule;
pub mod settings_ui;
pub mod smoke;
pub mod startup;
pub mod theme;
pub mod thumbnails;
pub mod widgets;
pub mod worker;
pub mod workflow;

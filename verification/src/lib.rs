//! The decisions of a desktop application launcher, verified.
pub mod app;
pub mod command;
pub mod desktop;
pub mod events;
pub mod favorites;
pub mod icon;
pub mod laws;
pub mod listing;
pub mod lockfile;
pub mod model;
pub mod text;
pub mod ui;

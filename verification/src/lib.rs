//! Search engine, ignore-rule and mask handling, configuration model and
//! text utilities of a desktop file-search tool.

pub mod text;
pub mod search;
pub mod config;
pub mod editor;
pub mod theme;
pub mod custom_draw;
pub mod drives;
pub mod order;
pub mod results;
pub mod layout;
pub mod settings;

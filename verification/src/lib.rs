//! Decision and text logic of the xnet status service and its phase watcher.
pub mod text;
pub mod name_map;
pub mod percent;
pub mod migration;
pub mod phase;
pub mod health;
pub mod events;
pub mod watcher;
pub mod prometheus;
pub mod config;
pub mod state;
pub mod cutover;
pub mod api;
pub mod htmx;
pub mod pages;

//! The decision logic of a tiling window manager.
#![allow(unused_imports)]

pub mod animation;
pub mod animation_manager;
pub mod animation_window;
pub mod application_observer;
pub mod attach_to_tile;
pub mod container;
pub mod detach_tile;
pub mod event_tap;
pub mod focus_workspace;
pub mod frame_clock;
mod ids;
pub mod layout;
pub mod lengths;
pub mod native_window_properties;
pub mod pending_sync;
pub mod placement_laws;
pub mod platform;
pub mod rect;
pub mod row_laws;
pub mod tile_laws;
pub mod tree;
pub mod tree_laws;
mod win32;
pub mod window_alpha_ext;

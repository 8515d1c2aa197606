//! The logic of a tray application that keeps a history of copied images and
//! dropped files.
//!
//! The store (`store`, `records`, `layout`, `loading`) decides what becomes of the
//! items and asks for work on disk as plain values (`actions`), which is carried
//! out step by step (`work`). What holds of it across operations is stated in
//! `laws`, of what a file becomes in `items`, over a model of the disk in `disk`, and
//! of a store that is opened again in `reopening`. The other modules hold what the window, the tray and the
//! clipboard do.

pub mod actions;
pub mod clipboard;
pub mod digest;
pub mod disk;
pub mod events;
pub mod icon;
pub mod items;
pub mod laws;
pub mod layout;
pub mod loading;
pub mod panel;
pub mod paths;
pub mod pixels;
pub mod placement;
pub mod previews;
pub mod records;
pub mod reopening;
pub mod store;
pub mod summary;
pub mod text;
pub mod tiles;
pub mod work;

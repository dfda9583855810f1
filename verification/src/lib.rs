//! Core logic of a keyboard-first PDF reader: view modes and page grids,
//! tab management, search, text selection, OCR/text indexing queues,
//! bitmap cache decisions and keyboard navigation.

pub mod model;
pub mod unicode;
pub mod text;
pub mod search;
pub mod tabs;
pub mod indexing;
pub mod render;
pub mod layout;
pub mod navigation;
pub mod platform;

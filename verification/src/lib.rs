//! A verified core for a local picture-triage tool.
//!
//! The library keeps an ordered, undo-capable record of which pictures are
//! still unprocessed, saved, or deleted, and prepares decoded, downsampled
//! bitmaps for display.  All file, thread and screen work is left to the
//! surrounding application; the library computes, and proves, everything
//! in between.

pub mod file_manager;
pub mod image_codec;
pub mod image_path;
pub mod picture_handler;
pub mod picture_list;
pub mod texture_handler;

//! Numbering of video files by a case-insensitive, prefix-blind order of
//! their names.
//!
//! A run takes the paths of the video files under one root, sorts them by the
//! lowercase form of their file names (with any earlier numeric prefix taken
//! off), and gives each file a new name that starts with its position in that
//! order. Every function here is pure: walking the directory tree and
//! renaming the files is left to the caller.

pub mod discovery;
pub mod entry;
pub mod guarantees;
pub mod mapper;
pub mod names;
pub mod numbering;
pub mod order;

pub use crate::discovery::is_video_file;
pub use crate::entry::Entry;
pub use crate::mapper::{assign_numbers, map_video_paths, MapError};
pub use crate::names::{get_raw_filename, strip_numeric_prefix};

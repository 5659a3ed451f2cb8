//! Which of the files found under the root are video files.

use crate::names::text_equal;
use vstd::prelude::*;

verus! {

/// The extension of the files that are numbered, without the dot. It is
/// compared exactly, case included.
pub const VIDEO_EXTENSION: &'static str = "mkv";

/// Whether a directory entry with this extension is a video file.
pub open spec fn video_file(is_regular_file: bool, extension: Option<Seq<char>>) -> bool {
    is_regular_file && extension == Some(VIDEO_EXTENSION@)
}

/// Decides whether a directory entry is one of the files to number: a
/// regular file whose extension is exactly `VIDEO_EXTENSION`. An entry
/// without an extension is given as `None`.
pub fn is_video_file(is_regular_file: bool, extension: Option<&str>) -> (r: bool)
    ensures
        r == video_file(
            is_regular_file,
            match extension {
                Some(e) => Some(e@),
                None => None,
            },
        ),
{
    match extension {
        Some(e) => is_regular_file && text_equal(e, VIDEO_EXTENSION),
        None => false,
    }
}

} // verus!

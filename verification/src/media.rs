//! Which file extensions can be previewed, and how.

use crate::text::{is_text, to_chars};
use vstd::prelude::*;

verus! {

/// `ext` is one of the image extensions that can be previewed.
pub open spec fn image_extension(ext: Seq<char>) -> bool {
    ||| ext == "jpg"@
    ||| ext == "jpeg"@
    ||| ext == "png"@
    ||| ext == "gif"@
    ||| ext == "webp"@
    ||| ext == "bmp"@
}

/// `ext` is one of the video extensions that can be previewed.
pub open spec fn video_extension(ext: Seq<char>) -> bool {
    ||| ext == "mp4"@
    ||| ext == "avi"@
    ||| ext == "mov"@
    ||| ext == "mkv"@
    ||| ext == "webm"@
    ||| ext == "3gp"@
    ||| ext == "m4v"@
}

/// Tells whether `ext`, taken as it is written, names an image format.
pub fn is_image_extension(ext: &str) -> (r: bool)
    ensures
        r == image_extension(ext@),
{
    let e = to_chars(ext);
    let e = e.as_slice();
    is_text(e, "jpg") || is_text(e, "jpeg") || is_text(e, "png") || is_text(e, "gif") || is_text(
        e,
        "webp",
    ) || is_text(e, "bmp")
}

/// Tells whether `ext`, taken as it is written, names a video format.
pub fn is_video_extension(ext: &str) -> (r: bool)
    ensures
        r == video_extension(ext@),
{
    let e = to_chars(ext);
    let e = e.as_slice();
    is_text(e, "mp4") || is_text(e, "avi") || is_text(e, "mov") || is_text(e, "mkv") || is_text(
        e,
        "webm",
    ) || is_text(e, "3gp") || is_text(e, "m4v")
}

/// How a file is previewed.
#[derive(Clone, Copy, Debug, PartialEq, Eq, Structural)]
pub enum MediaKind {
    Image,
    Video,
    Unsupported,
}

/// The kind of preview that goes with an extension already in lower case.
pub open spec fn media_kind_of(ext: Seq<char>) -> MediaKind {
    if image_extension(ext) {
        MediaKind::Image
    } else if video_extension(ext) {
        MediaKind::Video
    } else {
        MediaKind::Unsupported
    }
}

/// The kind of preview that goes with an extension already in lower case.
pub fn media_kind(ext: &str) -> (k: MediaKind)
    ensures
        k == media_kind_of(ext@),
{
    if is_image_extension(ext) {
        MediaKind::Image
    } else if is_video_extension(ext) {
        MediaKind::Video
    } else {
        MediaKind::Unsupported
    }
}

} // verus!

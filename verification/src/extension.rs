//! Extension resolver: maps a declared media type to a canonical file
//! extension, with `bin` as the fallback for unknown types.

use crate::text::str_eq;
use vstd::prelude::*;

verus! {

/// The canonical file extension for a declared media type. Unknown media
/// types map to `bin`; there is no error path.
pub open spec fn extension_spec(media_type: Seq<char>) -> Seq<char> {
    if media_type == "image/png"@ {
        "png"@
    } else if media_type == "image/jpeg"@ || media_type == "image/jpg"@ {
        "jpg"@
    } else if media_type == "image/gif"@ {
        "gif"@
    } else if media_type == "image/webp"@ {
        "webp"@
    } else if media_type == "image/svg+xml"@ {
        "svg"@
    } else if media_type == "image/bmp"@ {
        "bmp"@
    } else if media_type == "image/tiff"@ {
        "tiff"@
    } else {
        "bin"@
    }
}

/// Resolves a declared media type to its canonical file extension.
pub fn extension_for(media_type: &str) -> (r: &'static str)
    ensures
        r@ == extension_spec(media_type@),
{
    if str_eq(media_type, "image/png") {
        "png"
    } else if str_eq(media_type, "image/jpeg") || str_eq(media_type, "image/jpg") {
        "jpg"
    } else if str_eq(media_type, "image/gif") {
        "gif"
    } else if str_eq(media_type, "image/webp") {
        "webp"
    } else if str_eq(media_type, "image/svg+xml") {
        "svg"
    } else if str_eq(media_type, "image/bmp") {
        "bmp"
    } else if str_eq(media_type, "image/tiff") {
        "tiff"
    } else {
        "bin"
    }
}

} // verus!

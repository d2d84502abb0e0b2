//! MIME type lookup by file extension, used when uploading attachments.

use vstd::prelude::*;

verus! {

use crate::text::str_eq;

/// The MIME type for a file extension; extensions outside the table fall
/// back to the generic byte-stream type.
pub open spec fn spec_mime_type(ext: Seq<char>) -> Seq<char> {
    if ext == "html"@ || ext == "htm"@ {
        "text/html"@
    } else if ext == "txt"@ {
        "text/plain"@
    } else if ext == "csv"@ {
        "text/csv"@
    } else if ext == "json"@ {
        "application/json"@
    } else if ext == "xml"@ {
        "application/xml"@
    } else if ext == "png"@ {
        "image/png"@
    } else if ext == "jpg"@ || ext == "jpeg"@ {
        "image/jpeg"@
    } else if ext == "gif"@ {
        "image/gif"@
    } else if ext == "bmp"@ {
        "image/bmp"@
    } else if ext == "webp"@ {
        "image/webp"@
    } else if ext == "mp3"@ {
        "audio/mpeg"@
    } else if ext == "wav"@ {
        "audio/wav"@
    } else if ext == "mp4"@ {
        "video/mp4"@
    } else if ext == "avi"@ {
        "video/x-msvideo"@
    } else if ext == "pdf"@ {
        "application/pdf"@
    } else if ext == "zip"@ {
        "application/zip"@
    } else if ext == "tar"@ {
        "application/x-tar"@
    } else if ext == "7z"@ {
        "application/x-7z-compressed"@
    } else if ext == "rar"@ {
        "application/vnd.rar"@
    } else {
        "application/octet-stream"@
    }
}

/// The MIME type for a file extension, per [`spec_mime_type`].
pub fn get_mime_type(extension: &str) -> (r: &str)
    ensures
        r@ == spec_mime_type(extension@),
{
    if str_eq(extension, "html") || str_eq(extension, "htm") {
        "text/html"
    } else if str_eq(extension, "txt") {
        "text/plain"
    } else if str_eq(extension, "csv") {
        "text/csv"
    } else if str_eq(extension, "json") {
        "application/json"
    } else if str_eq(extension, "xml") {
        "application/xml"
    } else if str_eq(extension, "png") {
        "image/png"
    } else if str_eq(extension, "jpg") || str_eq(extension, "jpeg") {
        "image/jpeg"
    } else if str_eq(extension, "gif") {
        "image/gif"
    } else if str_eq(extension, "bmp") {
        "image/bmp"
    } else if str_eq(extension, "webp") {
        "image/webp"
    } else if str_eq(extension, "mp3") {
        "audio/mpeg"
    } else if str_eq(extension, "wav") {
        "audio/wav"
    } else if str_eq(extension, "mp4") {
        "video/mp4"
    } else if str_eq(extension, "avi") {
        "video/x-msvideo"
    } else if str_eq(extension, "pdf") {
        "application/pdf"
    } else if str_eq(extension, "zip") {
        "application/zip"
    } else if str_eq(extension, "tar") {
        "application/x-tar"
    } else if str_eq(extension, "7z") {
        "application/x-7z-compressed"
    } else if str_eq(extension, "rar") {
        "application/vnd.rar"
    } else {
        "application/octet-stream"
    }
}

} // verus!

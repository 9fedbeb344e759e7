//! The table from file extensions to content types.
use vstd::prelude::*;
use crate::bytes::{equals_text, text};

verus! {

/// The content type served for a file whose extension is `ext`. The match is
/// exact: an extension in upper case is not in the table.
pub open spec fn mime_of(ext: Seq<u8>) -> Seq<char> {
    if ext == text("html") || ext == text("htm") {
        "text/html"@
    } else if ext == text("css") {
        "text/css"@
    } else if ext == text("js") {
        "application/javascript"@
    } else if ext == text("json") {
        "application/json"@
    } else if ext == text("png") {
        "image/png"@
    } else if ext == text("jpg") || ext == text("jpeg") {
        "image/jpeg"@
    } else if ext == text("gif") {
        "image/gif"@
    } else if ext == text("svg") {
        "image/svg+xml"@
    } else if ext == text("pdf") {
        "application/pdf"@
    } else if ext == text("txt") || ext == text("md") {
        "text/plain"@
    } else {
        "application/octet-stream"@
    }
}

/// Looks up the content type of a file extension (given without its dot).
pub fn guess_mime(ext: &[u8]) -> (r: &'static str)
    ensures
        r@ == mime_of(ext@),
{
    if equals_text(ext, "html") || equals_text(ext, "htm") {
        "text/html"
    } else if equals_text(ext, "css") {
        "text/css"
    } else if equals_text(ext, "js") {
        "application/javascript"
    } else if equals_text(ext, "json") {
        "application/json"
    } else if equals_text(ext, "png") {
        "image/png"
    } else if equals_text(ext, "jpg") || equals_text(ext, "jpeg") {
        "image/jpeg"
    } else if equals_text(ext, "gif") {
        "image/gif"
    } else if equals_text(ext, "svg") {
        "image/svg+xml"
    } else if equals_text(ext, "pdf") {
        "application/pdf"
    } else if equals_text(ext, "txt") || equals_text(ext, "md") {
        "text/plain"
    } else {
        "application/octet-stream"
    }
}

} // verus!

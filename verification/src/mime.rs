//! Content types by file extension.

use crate::path::{extension, extension_of, same_bytes};
use vstd::prelude::*;
use vstd::string::StringSliceAdditionalSpecFns;

verus! {

/// The content type that the table gives for an extension, as the bytes after the
/// last `.` of a file name.
pub open spec fn media_type(ext: Seq<u8>) -> Option<Seq<char>> {
    if ext == "js".spec_bytes() {
        Some("application/javascript"@)
    } else if ext == "json".spec_bytes() {
        Some("application/json"@)
    } else if ext == "woff".spec_bytes() {
        Some("font/woff"@)
    } else if ext == "ico".spec_bytes() {
        Some("image/x-icon"@)
    } else if ext == "png".spec_bytes() {
        Some("image/png"@)
    } else if ext == "svg".spec_bytes() {
        Some("image/svg+xml"@)
    } else if ext == "css".spec_bytes() {
        Some("text/css"@)
    } else if ext == "html".spec_bytes() {
        Some("text/html"@)
    } else {
        None
    }
}

/// The content type of the file that `path` names: that of its extension, where it
/// has one and the table knows it.
pub open spec fn content_type_of(path: Seq<u8>) -> Option<Seq<char>> {
    match extension_of(path) {
        Some(ext) => media_type(ext),
        None => None,
    }
}

/// Looks an extension up in the table.
pub fn media_type_for(ext: &[u8]) -> (kind: Option<&'static str>)
    ensures
        match kind {
            Some(name) => media_type(ext@) == Some(name@),
            None => media_type(ext@) is None,
        },
{
    if same_bytes(ext, "js".as_bytes()) {
        Some("application/javascript")
    } else if same_bytes(ext, "json".as_bytes()) {
        Some("application/json")
    } else if same_bytes(ext, "woff".as_bytes()) {
        Some("font/woff")
    } else if same_bytes(ext, "ico".as_bytes()) {
        Some("image/x-icon")
    } else if same_bytes(ext, "png".as_bytes()) {
        Some("image/png")
    } else if same_bytes(ext, "svg".as_bytes()) {
        Some("image/svg+xml")
    } else if same_bytes(ext, "css".as_bytes()) {
        Some("text/css")
    } else if same_bytes(ext, "html".as_bytes()) {
        Some("text/html")
    } else {
        None
    }
}

/// The content type of the file that `path` names, or `None` where the table has none for it.
pub fn find_content_type(path: &[u8]) -> (kind: Option<&'static str>)
    ensures
        match kind {
            Some(name) => content_type_of(path@) == Some(name@),
            None => content_type_of(path@) is None,
        },
{
    match extension(path) {
        Some(ext) => media_type_for(ext.as_slice()),
        None => None,
    }
}

/// The content type of the file that `path` names.
///
/// The path must name a file whose extension the table knows; `find_content_type`
/// tells whether it does.
pub fn content_type(path: &[u8]) -> (kind: &'static str)
    requires
        content_type_of(path@) is Some,
    ensures
        content_type_of(path@) == Some(kind@),
{
    match find_content_type(path) {
        Some(name) => name,
        None => vstd::pervasive::unreached(),
    }
}

} // verus!

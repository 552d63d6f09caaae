//! From a request target to a path inside the document root.
//!
//! The target is joined onto the document root; the file system then gives the
//! canonical form of that path, or says that there is none; the canonical path is
//! accepted only within the document root, and a directory stands for the
//! `index.html` in it.

use crate::mime::content_type_of;
use crate::path::{
    file_name, is_plain_name, join, join_appends_name, joined, last_dot, last_dot_is_the_last,
    starts_with, within, DOT,
};
use vstd::prelude::*;
use vstd::string::{StrSliceExecFns, StringSliceAdditionalSpecFns};
use vstd::utf8::encode_utf8;

verus! {

/// Why a target is turned down.
#[derive(Clone, Copy, Debug, PartialEq, Eq, Structural)]
pub enum Rejection {
    /// The path does not exist.
    NotFound,
    /// The path exists, outside the document root.
    Forbidden,
}

/// The name of the file that is served for a directory.
pub open spec fn index_name() -> Seq<u8> {
    "index.html".spec_bytes()
}

/// Whether the first character of `target` can be taken off: there is one, and it
/// is a single byte long.
pub open spec fn has_leading_byte(target: Seq<char>) -> bool {
    target.len() > 0 && (target[0] as u32) < 0x80
}

/// The path that a target asks for, relative to the document root: the target
/// without its first character, which is the `/` of a well-formed target.
pub open spec fn target_path(target: Seq<char>) -> Seq<u8> {
    encode_utf8(target.drop_first())
}

/// The path to look up for a target: the target's path joined onto the root.
pub open spec fn request_path(root: Seq<u8>, target: Seq<char>) -> Seq<u8> {
    joined(root, target_path(target))
}

/// The bytes behind an optional slice.
pub open spec fn view_of(bytes: Option<&[u8]>) -> Option<Seq<u8>> {
    match bytes {
        Some(b) => Some(b@),
        None => None,
    }
}

/// What a target resolves to, given what the file system says of its path:
/// `canonical` is the canonical form of the path, or `None` if it does not exist,
/// and `is_dir` tells whether it is a directory.
pub open spec fn resolved(root: Seq<u8>, canonical: Option<Seq<u8>>, is_dir: bool) -> Result<
    Seq<u8>,
    Rejection,
> {
    match canonical {
        None => Err(Rejection::NotFound),
        Some(path) => if !within(path, root) {
            Err(Rejection::Forbidden)
        } else if is_dir {
            Ok(joined(path, index_name()))
        } else {
            Ok(path)
        },
    }
}

/// The index file is an HTML file, wherever it lies.
///
/// `index.html` is a plain name, and for every directory `dir` the path of the
/// `index.html` in it has the content type `text/html`.
pub proof fn index_is_html(dir: Seq<u8>)
    ensures
        is_plain_name(index_name()),
        file_name(joined(dir, index_name())) == Some(index_name()),
        content_type_of(joined(dir, index_name())) == Some("text/html"@),
{
    reveal_strlit("index.html");
    reveal_strlit("js");
    reveal_strlit("json");
    reveal_strlit("woff");
    reveal_strlit("ico");
    reveal_strlit("png");
    reveal_strlit("svg");
    reveal_strlit("css");
    reveal_strlit("html");
    vstd::utf8::is_ascii_chars_encode_utf8("index.html"@);
    vstd::utf8::is_ascii_chars_encode_utf8("js"@);
    vstd::utf8::is_ascii_chars_encode_utf8("json"@);
    vstd::utf8::is_ascii_chars_encode_utf8("woff"@);
    vstd::utf8::is_ascii_chars_encode_utf8("ico"@);
    vstd::utf8::is_ascii_chars_encode_utf8("png"@);
    vstd::utf8::is_ascii_chars_encode_utf8("svg"@);
    vstd::utf8::is_ascii_chars_encode_utf8("css"@);
    vstd::utf8::is_ascii_chars_encode_utf8("html"@);
    let name = index_name();
    assert(name[5] == DOT);
    join_appends_name(dir, name);
    last_dot_is_the_last(name);
    let ext = name.skip(6);
    assert(ext =~= "html".spec_bytes());
}

/// Whether the first character of `target` can be taken off.
pub fn leads_with_byte(target: &str) -> (yes: bool)
    ensures
        yes == has_leading_byte(target@),
{
    !target.is_empty() && (target.get_char(0) as u32) < 0x80
}

/// Builds the path to look up for `target` under `root`.
///
/// The first character of the target is dropped, so it must be a single byte; a
/// well-formed target begins with `/`.
pub fn locate(root: &[u8], target: &str) -> (path: Vec<u8>)
    requires
        has_leading_byte(target@),
    ensures
        path@ == request_path(root@, target@),
{
    let count: usize = target.unicode_len();
    let rest = target.substring_char(1, count);
    join(root, rest.as_bytes())
}

/// Decides what a target resolves to, given what the file system says of its path.
///
/// Fails with `NotFound` exactly when there is no canonical path, and with
/// `Forbidden` exactly when there is one and it is not within `root`.
pub fn resolve(root: &[u8], canonical: Option<&[u8]>, is_dir: bool) -> (found: Result<
    Vec<u8>,
    Rejection,
>)
    ensures
        match found {
            Ok(path) => resolved(root@, view_of(canonical), is_dir) == Ok::<Seq<u8>, Rejection>(
                path@,
            ),
            Err(why) => resolved(root@, view_of(canonical), is_dir) == Err::<Seq<u8>, Rejection>(
                why,
            ),
        },
{
    match canonical {
        None => Err(Rejection::NotFound),
        Some(path) => {
            if !starts_with(path, root) {
                Err(Rejection::Forbidden)
            } else if is_dir {
                Ok(join(path, "index.html".as_bytes()))
            } else {
                Ok(vstd::slice::slice_to_vec(path))
            }
        },
    }
}

} // verus!

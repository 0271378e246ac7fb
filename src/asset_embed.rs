//! Media types of asset files.

use vstd::prelude::*;
use crate::epub::dir_prefix;
use crate::text::{chars_of, is_last_index, rfind_char, seq_eq, slice};

verus! {

/// The extension of the last component of `path`: what follows its last
/// `.`, where that `.` is not the component's first character.
pub open spec fn extension(path: Seq<char>) -> Option<Seq<char>> {
    let name = path.subrange(dir_prefix(path).len() as int, path.len() as int);
    if exists|i: int| is_last_index(name, '.', i) && i > 0 {
        let i = choose|i: int| is_last_index(name, '.', i) && i > 0;
        Some(name.subrange(i + 1, name.len() as int))
    } else {
        None
    }
}

/// The media type for a file extension.
pub open spec fn media_type_for(ext: Option<Seq<char>>) -> Seq<char> {
    match ext {
        Some(e) => if e == "jpg"@ || e == "jpeg"@ {
            "image/jpeg"@
        } else if e == "png"@ {
            "image/png"@
        } else if e == "gif"@ {
            "image/gif"@
        } else if e == "svg"@ {
            "image/svg+xml"@
        } else if e == "webp"@ {
            "image/webp"@
        } else if e == "css"@ {
            "text/css"@
        } else if e == "js"@ {
            "application/javascript"@
        } else if e == "ttf"@ {
            "font/ttf"@
        } else if e == "otf"@ {
            "font/otf"@
        } else if e == "woff"@ {
            "font/woff"@
        } else if e == "woff2"@ {
            "font/woff2"@
        } else if e == "mp3"@ {
            "audio/mpeg"@
        } else if e == "mp4"@ {
            "video/mp4"@
        } else if e == "xhtml"@ || e == "html"@ {
            "application/xhtml+xml"@
        } else {
            "application/octet-stream"@
        },
        None => "application/octet-stream"@,
    }
}

/// The extension of the file that `path` names.
fn extension_of(path: &Vec<char>) -> (r: Option<Vec<char>>)
    ensures
        match r {
            Some(e) => extension(path@) == Some(e@),
            None => extension(path@) is None,
        },
{
    let d = crate::epub::dir_of(path);
    let name = slice(path, d.len(), path.len());
    match rfind_char(&name, '.') {
        Some(i) => {
            if i == 0 {
                proof {
                    assert forall|j: int| is_last_index(name@, '.', j) implies j == 0 by {}
                }
                None
            } else {
                proof {
                    assert forall|j: int| is_last_index(name@, '.', j) && j > 0 implies j == i by {}
                    assert(is_last_index(name@, '.', i as int));
                }
                Some(slice(&name, i + 1, name.len()))
            }
        },
        None => None,
    }
}

/// Whether `e` holds the characters of `lit`.
fn is_ext(e: &Vec<char>, lit: &str) -> (r: bool)
    ensures
        r == (e@ == lit@),
{
    let l = chars_of(lit);
    seq_eq(e, &l)
}

/// The media type of a file, from its extension.
pub fn infer_media_type(path: &str) -> (r: &'static str)
    ensures
        r@ == media_type_for(extension(path@)),
{
    let p = chars_of(path);
    match extension_of(&p) {
        Some(e) => {
            if is_ext(&e, "jpg") || is_ext(&e, "jpeg") {
                "image/jpeg"
            } else if is_ext(&e, "png") {
                "image/png"
            } else if is_ext(&e, "gif") {
                "image/gif"
            } else if is_ext(&e, "svg") {
                "image/svg+xml"
            } else if is_ext(&e, "webp") {
                "image/webp"
            } else if is_ext(&e, "css") {
                "text/css"
            } else if is_ext(&e, "js") {
                "application/javascript"
            } else if is_ext(&e, "ttf") {
                "font/ttf"
            } else if is_ext(&e, "otf") {
                "font/otf"
            } else if is_ext(&e, "woff") {
                "font/woff"
            } else if is_ext(&e, "woff2") {
                "font/woff2"
            } else if is_ext(&e, "mp3") {
                "audio/mpeg"
            } else if is_ext(&e, "mp4") {
                "video/mp4"
            } else if is_ext(&e, "xhtml") || is_ext(&e, "html") {
                "application/xhtml+xml"
            } else {
                "application/octet-stream"
            }
        },
        None => "application/octet-stream",
    }
}

} // verus!

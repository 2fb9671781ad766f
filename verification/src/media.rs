//! Which files count as video.

use crate::path::{chars_of, extension, extension_of};
use vstd::prelude::*;

verus! {

/// The lower-case form of `c`, as far as an ASCII text can tell: the capital
/// letters A to Z and the Kelvin sign fold onto their small letters, and every
/// other character stands for itself.
pub open spec fn folded(c: char) -> char {
    if 'A' <= c && c <= 'Z' {
        ((c as u32) + 32) as char
    } else if c == '\u{212A}' {
        'k'
    } else {
        c
    }
}

/// Whether `text` reads as `target` once each character is folded.
pub open spec fn folds_to(text: Seq<char>, target: Seq<char>) -> bool {
    &&& text.len() == target.len()
    &&& forall|i: int| 0 <= i < text.len() ==> folded(text[i]) == target[i]
}

/// The extensions of the supported containers, `mkv` and `mp4`, in any mix of
/// cases.
pub open spec fn is_video_extension(ext: Seq<char>) -> bool {
    folds_to(ext, seq!['m', 'k', 'v']) || folds_to(ext, seq!['m', 'p', '4'])
}

/// A path names a video when it is a regular file and carries the extension
/// of a supported container.
pub open spec fn is_movie(path: Seq<char>, is_file: bool) -> bool {
    is_file && match extension_of(path) {
        Some(ext) => is_video_extension(ext),
        None => false,
    }
}

/// Folds one character to lower case.
pub fn fold(c: char) -> (r: char)
    ensures
        r == folded(c),
{
    if 'A' <= c && c <= 'Z' {
        ((c as u8) + 32) as char
    } else if c == '\u{212A}' {
        'k'
    } else {
        c
    }
}

/// Whether `path` names a supported video, given whether it is a regular
/// file on disk.
pub fn is_movie_file(path: &str, is_file: bool) -> (r: bool)
    ensures
        r == is_movie(path@, is_file),
{
    if !is_file {
        return false;
    }
    match extension(path) {
        None => false,
        Some(ext) => {
            let chars: Vec<char> = chars_of(ext.as_str());
            if chars.len() != 3 {
                return false;
            }
            let a: char = fold(chars[0]);
            let b: char = fold(chars[1]);
            let c: char = fold(chars[2]);
            a == 'm' && ((b == 'k' && c == 'v') || (b == 'p' && c == '4'))
        },
    }
}

} // verus!

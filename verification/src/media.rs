//! Media container recognition by file extension.
//!
//! Cast devices play a limited set of containers and codecs; this module
//! holds that taxonomy and recognizes a container from a path, the way the
//! file name's extension reads: the part after the last dot of the last
//! path component, unless that dot starts the component. Opening and
//! inspecting the file itself is the surrounding application's business.

use crate::text::{find_last, lemma_find_last_is_last, rfind_char};
use vstd::prelude::*;

verus! {

/// A media container recognized by its file extension.
#[derive(Debug, PartialEq, Eq, Structural, Clone, Copy)]
pub enum Container {
    Mkv,
    Webm,
}

/// A video codec cast devices can play.
#[derive(Debug, PartialEq, Eq, Structural, Clone, Copy)]
pub enum VideoCodec {
    /// H.264.
    Mpeg4Avc,
    Vp8,
}

/// An audio codec cast devices can play.
#[derive(Debug, PartialEq, Eq, Structural, Clone, Copy)]
pub enum AudioCodec {
    Aac,
    Ac3,
    Mp3,
    Opus,
    Vorbis,
}

/// Why a media file cannot be inspected.
#[derive(Debug, PartialEq, Eq, Structural, Clone, Copy)]
pub enum MediaError {
    FileNotFound,
    UnsupportedFormat,
}

/// The last component of a path: everything after the last slash.
pub open spec fn file_name_of(path: Seq<char>) -> Seq<char> {
    match find_last(path, '/') {
        Some(i) => path.skip(i + 1),
        None => path,
    }
}

/// The extension of a file name: everything after the last dot, unless the
/// dot starts the name or there is none.
pub open spec fn extension_of(name: Seq<char>) -> Option<Seq<char>> {
    match find_last(name, '.') {
        Some(i) => if i == 0 {
            None
        } else {
            Some(name.skip(i + 1))
        },
        None => None,
    }
}

/// Two characters equal up to ASCII case.
pub open spec fn char_eq_nocase(a: char, b: char) -> bool {
    let x = a as u32;
    let y = b as u32;
    x == y || (65 <= x <= 90 && y == x + 32) || (65 <= y <= 90 && x == y + 32)
}

/// Two character runs equal up to ASCII case.
pub open spec fn seq_eq_nocase(a: Seq<char>, b: Seq<char>) -> bool {
    a.len() == b.len() && forall|i: int| 0 <= i < a.len() ==> char_eq_nocase(#[trigger] a[i], b[i])
}

/// The container a path's extension names, case-insensitively.
pub open spec fn container_of(path: Seq<char>) -> Option<Container> {
    match extension_of(file_name_of(path)) {
        None => None,
        Some(ext) => if seq_eq_nocase(ext, "mkv"@) {
            Some(Container::Mkv)
        } else if seq_eq_nocase(ext, "webm"@) {
            Some(Container::Webm)
        } else {
            None
        },
    }
}

/// Whether two strings are equal up to ASCII case.
fn str_eq_nocase(a: &str, b: &str) -> (r: bool)
    ensures
        r == seq_eq_nocase(a@, b@),
{
    let n = a.unicode_len();
    if n != b.unicode_len() {
        return false;
    }
    let mut i: usize = 0;
    while i < n
        invariant
            n == a@.len(),
            n == b@.len(),
            0 <= i <= n,
            forall|j: int| 0 <= j < i ==> char_eq_nocase(#[trigger] a@[j], b@[j]),
        decreases n - i,
    {
        let x = a.get_char(i) as u32;
        let y = b.get_char(i) as u32;
        let same = x == y || (65 <= x && x <= 90 && y == x + 32) || (65 <= y && y <= 90 && x == y
            + 32);
        if !same {
            return false;
        }
        i += 1;
    }
    true
}

/// The container a path names through its file extension, or `None` for an
/// extension no cast device plays, or for none at all.
pub fn get_container(path: &str) -> (r: Option<Container>)
    ensures
        r == container_of(path@),
{
    let plen = path.unicode_len();
    let name = match rfind_char(path, '/') {
        Some(i) => {
            proof {
                lemma_find_last_is_last(path@, '/');
            }
            path.substring_char(i + 1, plen)
        },
        None => path,
    };
    let nlen = name.unicode_len();
    let ext = match rfind_char(name, '.') {
        None => {
            return None;
        },
        Some(i) => {
            if i == 0 {
                return None;
            }
            proof {
                lemma_find_last_is_last(name@, '.');
            }
            name.substring_char(i + 1, nlen)
        },
    };
    if str_eq_nocase(ext, "mkv") {
        Some(Container::Mkv)
    } else if str_eq_nocase(ext, "webm") {
        Some(Container::Webm)
    } else {
        None
    }
}

} // verus!

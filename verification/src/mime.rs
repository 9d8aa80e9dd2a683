//! File-name handling and the fixed extension-to-MIME table: the file name
//! is the part of a path after its last slash, the extension the part of the
//! file name after its last dot, and extensions are matched ignoring ASCII
//! case.
use vstd::prelude::*;

use crate::text::{word_at_ci, word_check_at_ci};

verus! {

/// Position of the last occurrence of `c` in `s`.
pub open spec fn rfind_char(s: Seq<char>, c: char) -> Option<int>
    decreases s.len(),
{
    if s.len() == 0 {
        None
    } else if s.last() == c {
        Some(s.len() - 1)
    } else {
        rfind_char(s.drop_last(), c)
    }
}

/// Index at which the file name of a path starts: right after the last
/// slash, or the start of the path when it has none.
pub open spec fn file_name_start(p: Seq<char>) -> int {
    match rfind_char(p, '/') {
        Some(i) => i + 1,
        None => 0,
    }
}

/// The file name of a path: everything after its last slash.
pub open spec fn file_name_spec(p: Seq<char>) -> Seq<char> {
    p.subrange(file_name_start(p), p.len() as int)
}

/// The extension of a file name: the part after its last dot, provided that
/// dot is not the leading character.
pub open spec fn extension_of_name(name: Seq<char>) -> Option<Seq<char>> {
    match rfind_char(name, '.') {
        Some(d) => if d > 0 {
            Some(name.subrange(d + 1, name.len() as int))
        } else {
            None
        },
        None => None,
    }
}

/// The extension of a path's file name.
pub open spec fn extension_of_path(p: Seq<char>) -> Option<Seq<char>> {
    extension_of_name(file_name_spec(p))
}

/// The two strings are equal ignoring ASCII case; `w` is written in lower
/// case.
pub open spec fn seq_eq_ci(s: Seq<char>, w: Seq<char>) -> bool {
    s.len() == w.len() && word_at_ci(s, 0, w)
}

/// Extensions enumerated as video files.
pub open spec fn is_video_ext(e: Seq<char>) -> bool {
    ||| seq_eq_ci(e, "mp4"@)
    ||| seq_eq_ci(e, "mkv"@)
    ||| seq_eq_ci(e, "avi"@)
    ||| seq_eq_ci(e, "mov"@)
    ||| seq_eq_ci(e, "wmv"@)
    ||| seq_eq_ci(e, "m4v"@)
    ||| seq_eq_ci(e, "mpg"@)
    ||| seq_eq_ci(e, "mpeg"@)
    ||| seq_eq_ci(e, "flv"@)
    ||| seq_eq_ci(e, "webm"@)
}

/// Extensions enumerated as audio files.
pub open spec fn is_audio_ext(e: Seq<char>) -> bool {
    ||| seq_eq_ci(e, "mp3"@)
    ||| seq_eq_ci(e, "flac"@)
    ||| seq_eq_ci(e, "m4a"@)
    ||| seq_eq_ci(e, "wav"@)
    ||| seq_eq_ci(e, "ogg"@)
    ||| seq_eq_ci(e, "aac"@)
    ||| seq_eq_ci(e, "wma"@)
    ||| seq_eq_ci(e, "aiff"@)
}

/// A path names a video file: it has an extension and the extension is in
/// the video table.
pub open spec fn is_video_path(p: Seq<char>) -> bool {
    match extension_of_path(p) {
        Some(e) => is_video_ext(e),
        None => false,
    }
}

/// A path names an audio file.
pub open spec fn is_audio_path(p: Seq<char>) -> bool {
    match extension_of_path(p) {
        Some(e) => is_audio_ext(e),
        None => false,
    }
}

/// MIME type served for an extension; `application/octet-stream` for
/// anything outside the table.
pub open spec fn mime_for_ext(e: Seq<char>) -> Seq<char> {
    if seq_eq_ci(e, "mp4"@) {
        "video/mp4"@
    } else if seq_eq_ci(e, "mkv"@) {
        "video/x-matroska"@
    } else if seq_eq_ci(e, "avi"@) {
        "video/x-msvideo"@
    } else if seq_eq_ci(e, "mov"@) {
        "video/quicktime"@
    } else if seq_eq_ci(e, "mp3"@) {
        "audio/mpeg"@
    } else if seq_eq_ci(e, "flac"@) {
        "audio/flac"@
    } else if seq_eq_ci(e, "m4a"@) {
        "audio/mp4"@
    } else {
        "application/octet-stream"@
    }
}

/// MIME type served for a path.
pub open spec fn mime_for_path(p: Seq<char>) -> Seq<char> {
    match extension_of_path(p) {
        Some(e) => mime_for_ext(e),
        None => "application/octet-stream"@,
    }
}

/// Last position of `c` in `s`, scanning from the end.
pub fn rfind_char_at(s: &str, c: char) -> (r: Option<usize>)
    ensures
        match r {
            Some(i) => i < s@.len() && rfind_char(s@, c) == Some(i as int),
            None => rfind_char(s@, c) is None,
        },
{
    let n = s.unicode_len();
    proof {
        assert(s@.subrange(0, n as int) =~= s@);
    }
    let mut i = n;
    while i > 0
        invariant
            0 <= i <= n,
            n == s@.len(),
            rfind_char(s@, c) == rfind_char(s@.subrange(0, i as int), c),
        decreases i,
    {
        proof {
            let t = s@.subrange(0, i as int);
            assert(t.drop_last() =~= s@.subrange(0, i - 1));
            assert(t.last() == s@[i - 1]);
        }
        if s.get_char(i - 1) == c {
            return Some(i - 1);
        }
        i -= 1;
    }
    proof {
        assert(s@.subrange(0, 0) =~= Seq::<char>::empty());
    }
    None
}

/// The file name of a path: everything after its last slash.
pub fn file_name_of(path: &str) -> (r: &str)
    ensures
        r@ == file_name_spec(path@),
{
    let n = path.unicode_len();
    match rfind_char_at(path, '/') {
        Some(i) => path.substring_char(i + 1, n),
        None => path.substring_char(0, n),
    }
}

/// The extension of a path's file name, when it has one.
pub fn extension_of(path: &str) -> (r: Option<&str>)
    ensures
        match r {
            Some(e) => extension_of_path(path@) == Some(e@),
            None => extension_of_path(path@) is None,
        },
{
    let name = file_name_of(path);
    let n = name.unicode_len();
    match rfind_char_at(name, '.') {
        Some(d) => if d > 0 {
            Some(name.substring_char(d + 1, n))
        } else {
            None
        },
        None => None,
    }
}

/// Whether two string slices are equal ignoring ASCII case; `w` is written
/// in lower case.
pub fn str_eq_ci(s: &str, w: &str) -> (r: bool)
    ensures
        r == seq_eq_ci(s@, w@),
{
    let n = s.unicode_len();
    let m = w.unicode_len();
    if n != m {
        return false;
    }
    word_check_at_ci(s, 0, w)
}

/// Whether the path names a file with a recognized video extension.
pub fn is_video_file(path: &str) -> (r: bool)
    ensures
        r == is_video_path(path@),
{
    match extension_of(path) {
        Some(e) => str_eq_ci(e, "mp4") || str_eq_ci(e, "mkv") || str_eq_ci(e, "avi") || str_eq_ci(
            e,
            "mov",
        ) || str_eq_ci(e, "wmv") || str_eq_ci(e, "m4v") || str_eq_ci(e, "mpg") || str_eq_ci(
            e,
            "mpeg",
        ) || str_eq_ci(e, "flv") || str_eq_ci(e, "webm"),
        None => false,
    }
}

/// Whether the path names a file with a recognized audio extension.
pub fn is_audio_file(path: &str) -> (r: bool)
    ensures
        r == is_audio_path(path@),
{
    match extension_of(path) {
        Some(e) => str_eq_ci(e, "mp3") || str_eq_ci(e, "flac") || str_eq_ci(e, "m4a") || str_eq_ci(
            e,
            "wav",
        ) || str_eq_ci(e, "ogg") || str_eq_ci(e, "aac") || str_eq_ci(e, "wma") || str_eq_ci(
            e,
            "aiff",
        ),
        None => false,
    }
}

/// The MIME type a file at `path` is served with.
pub fn content_type_for_path(path: &str) -> (r: &'static str)
    ensures
        r@ == mime_for_path(path@),
{
    match extension_of(path) {
        Some(e) => {
            if str_eq_ci(e, "mp4") {
                "video/mp4"
            } else if str_eq_ci(e, "mkv") {
                "video/x-matroska"
            } else if str_eq_ci(e, "avi") {
                "video/x-msvideo"
            } else if str_eq_ci(e, "mov") {
                "video/quicktime"
            } else if str_eq_ci(e, "mp3") {
                "audio/mpeg"
            } else if str_eq_ci(e, "flac") {
                "audio/flac"
            } else if str_eq_ci(e, "m4a") {
                "audio/mp4"
            } else {
                "application/octet-stream"
            }
        },
        None => "application/octet-stream",
    }
}

} // verus!

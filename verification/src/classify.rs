//! The content classifier: pure functions over path strings that recognize
//! movies (`Title (Year).ext`) and TV episodes from file and folder names,
//! without touching the filesystem.
//!
//! The layered precedence mirrors common naming conventions and must be kept
//! exactly: an explicit season folder wins over an `SxxEyy` marker, which
//! wins over an `AxB` pattern; episode numbers prefer the `e` of `SxxEyy`,
//! then the word `episode`, then `x`, then a leading ordinal.  Case of ASCII
//! letters never matters for the markers; a show's name is taken verbatim.
use vstd::prelude::*;

use crate::mime::{file_name_spec, rfind_char, rfind_char_at, file_name_of};
use crate::text::{
    all_digits, char_eq_ci, dec_str, digit_check, digit_run_end, digit_value, digits_of,
    digits_val, find_char_at, find_char_ci, find_char_ci_from, find_char_from, find_word_at,
    find_word_ci, find_word_ci_from, find_word_from, is_digit_char, is_space_char,
    lemma_digits_val_len_bound, parse_digit_run_i32, parse_filtered_digits_i32, parse_u64_range,
    push_dec_u64, space_check, trim_of, trim_spec,
};

verus! {

/// The file name without its extension, as the movie rules read it: the part
/// before the last dot, unless that dot leads the name.
pub open spec fn stem_of_name(name: Seq<char>) -> Seq<char> {
    match rfind_char(name, '.') {
        Some(d) => if d > 0 {
            name.subrange(0, d)
        } else {
            name
        },
        None => name,
    }
}

/// A movie's title: the stem of the file name, cut before the first `(`
/// when one occurs, and trimmed.
pub open spec fn movie_title_spec(name: Seq<char>) -> Seq<char> {
    let stem = stem_of_name(name);
    match find_char_from(stem, '(', 0) {
        Some(i) => trim_spec(stem.subrange(0, i)),
        None => trim_spec(stem),
    }
}

/// A signed decimal integer as the year parser accepts it: an optional
/// leading sign followed by at least one digit, nothing else.
pub open spec fn parse_signed_spec(s: Seq<char>) -> Option<int> {
    if s.len() == 0 {
        None
    } else if s[0] == '+' || s[0] == '-' {
        let d = s.subrange(1, s.len() as int);
        if d.len() > 0 && all_digits(d) {
            Some(
                if s[0] == '-' {
                    -digits_val(d)
                } else {
                    digits_val(d)
                },
            )
        } else {
            None
        }
    } else if all_digits(s) {
        Some(digits_val(s))
    } else {
        None
    }
}

/// A movie's year: the text between the first `(` of the stem and the next
/// `)`, accepted only when it is exactly four characters that parse as an
/// integer.
pub open spec fn movie_year_spec(name: Seq<char>) -> Option<int> {
    let stem = stem_of_name(name);
    match find_char_from(stem, '(', 0) {
        None => None,
        Some(i) => match find_char_from(stem, ')', i + 1) {
            None => None,
            Some(j) => if j - i == 5 {
                parse_signed_spec(stem.subrange(i + 1, j))
            } else {
                None
            },
        },
    }
}

/// The last three components of an episode path: file name, season folder
/// name, show folder name.  `None` when the path has fewer than two
/// ancestor directories or one of the three names is empty.
pub open spec fn tv_path_parts(p: Seq<char>) -> Option<(Seq<char>, Seq<char>, Seq<char>)> {
    match rfind_char(p, '/') {
        None => None,
        Some(i1) => {
            let file = p.subrange(i1 + 1, p.len() as int);
            let dir = p.subrange(0, i1);
            match rfind_char(dir, '/') {
                None => None,
                Some(i2) => {
                    let parent = dir.subrange(i2 + 1, dir.len() as int);
                    let show = file_name_spec(dir.subrange(0, i2));
                    if file.len() == 0 || parent.len() == 0 || show.len() == 0 {
                        None
                    } else {
                        Some((file, parent, show))
                    }
                },
            }
        },
    }
}

/// The directory two levels above an episode file: the show's own folder,
/// recorded as the show's path.
pub open spec fn show_dir_spec(p: Seq<char>) -> Seq<char> {
    match rfind_char(p, '/') {
        None => Seq::empty(),
        Some(i1) => {
            let dir = p.subrange(0, i1);
            match rfind_char(dir, '/') {
                None => Seq::empty(),
                Some(i2) => dir.subrange(0, i2),
            }
        },
    }
}

/// First position at or after `i` where the letter `l` (ignoring ASCII
/// case) is immediately followed by two digits.
pub open spec fn find_marker_dd_from(f: Seq<char>, l: char, i: int) -> Option<int>
    decreases f.len() - i,
{
    if i < 0 || i >= f.len() {
        None
    } else if char_eq_ci(f[i], l) && i + 2 < f.len() && is_digit_char(f[i + 1]) && is_digit_char(
        f[i + 2],
    ) {
        Some(i)
    } else {
        find_marker_dd_from(f, l, i + 1)
    }
}

/// Value of the two digits right after position `i`.
pub open spec fn two_digit_val(f: Seq<char>, i: int) -> int {
    10 * crate::text::digit_val(f[i + 1]) + crate::text::digit_val(f[i + 2])
}

/// The season number of an episode file, by falling precedence:
/// a season folder name containing `season` contributes all its digits; then
/// an `s` followed by two digits in the file name; then the digits before an
/// `x` pattern.  `None` when no rule applies or a digit string is empty or
/// overflows.
pub open spec fn season_of(file: Seq<char>, parent: Seq<char>) -> Option<int> {
    if find_word_ci_from(parent, "season"@, 0) is Some {
        let ds = digits_of(parent);
        if ds.len() > 0 && digits_val(ds) <= i32::MAX {
            Some(digits_val(ds))
        } else {
            None
        }
    } else {
        match find_marker_dd_from(file, 's', 0) {
            Some(i) => Some(two_digit_val(file, i)),
            None => match find_char_ci_from(file, 'x', 0) {
                None => None,
                Some(x) => if 0 < x && x + 1 < file.len() {
                    let ds = digits_of(file.subrange(0, x));
                    if ds.len() > 0 && digits_val(ds) <= i32::MAX {
                        Some(digits_val(ds))
                    } else {
                        None
                    }
                } else {
                    None
                },
            },
        }
    }
}

/// The episode number of an episode file, by falling precedence: two digits
/// after an `e` that stands after an `s`; the digit run right after the word
/// `episode`; two digits after the first `x`; the digit run at the very
/// start of the name.
pub open spec fn episode_of(file: Seq<char>) -> Option<int> {
    let e_marker = match find_char_ci_from(file, 's', 0) {
        None => None,
        Some(s0) => find_marker_dd_from(file, 'e', s0 + 1),
    };
    match e_marker {
        Some(j) => Some(two_digit_val(file, j)),
        None => if find_word_ci_from(file, "episode"@, 0) is Some {
            let ep = find_word_ci_from(file, "episode"@, 0)->Some_0;
            let run = file.subrange(ep + 7, digit_run_end(file, ep + 7));
            if run.len() > 0 && digits_val(run) <= i32::MAX {
                Some(digits_val(run))
            } else {
                None
            }
        } else {
            match find_char_ci_from(file, 'x', 0) {
                Some(x) => if x + 2 < file.len() && is_digit_char(file[x + 1]) && is_digit_char(
                    file[x + 2],
                ) {
                    Some(two_digit_val(file, x))
                } else {
                    None
                },
                None => {
                    let run = file.subrange(0, digit_run_end(file, 0));
                    if run.len() > 0 && digits_val(run) <= i32::MAX {
                        Some(digits_val(run))
                    } else {
                        None
                    }
                },
            }
        },
    }
}

/// Full classification of an episode path: show name (verbatim), season
/// number, episode number.
pub open spec fn tv_info_spec(p: Seq<char>) -> Option<(Seq<char>, int, int)> {
    match tv_path_parts(p) {
        None => None,
        Some(parts) => match season_of(parts.0, parts.1) {
            None => None,
            Some(se) => match episode_of(parts.0) {
                None => None,
                Some(ep) => Some((parts.2, se, ep)),
            },
        },
    }
}

/// The file name without the part after its last dot, as the title rule
/// reads it (here a leading dot also cuts).
pub open spec fn title_stem(name: Seq<char>) -> Seq<char> {
    match rfind_char(name, '.') {
        Some(d) => name.subrange(0, d),
        None => name,
    }
}

/// The segment before the separator looks like an episode marker: an `e`
/// not in the final two characters, a bare numeric prefix (digits and
/// whitespace only), or the word `episode`.
pub open spec fn marker_before_sep(before: Seq<char>) -> bool {
    ||| (match find_char_ci_from(before, 'e', 0) {
        Some(e0) => e0 + 2 < before.len(),
        None => false,
    })
    ||| (forall|i: int|
        0 <= i < before.len() ==> is_digit_char(#[trigger] before[i]) || is_space_char(before[i]))
    ||| find_word_ci_from(before, "episode"@, 0) is Some
}

/// An episode's display title: the trimmed text after the first `" - "` of
/// the stem when the text before it looks like an episode marker, else the
/// generic `Episode <n>`.
pub open spec fn episode_title_spec(name: Seq<char>, n: int) -> Seq<char> {
    let stem = title_stem(name);
    match find_word_from(stem, " - "@, 0) {
        Some(sep) => if marker_before_sep(stem.subrange(0, sep)) {
            trim_spec(stem.subrange(sep + 3, stem.len() as int))
        } else {
            "Episode "@ + dec_str(n as nat)
        },
        None => "Episode "@ + dec_str(n as nat),
    }
}

/// The stem of a file name under the movie rules, as a borrowed slice.
fn movie_stem_of(name: &str) -> (r: &str)
    ensures
        r@ == stem_of_name(name@),
{
    let n = name.unicode_len();
    match rfind_char_at(name, '.') {
        Some(d) => if d > 0 {
            name.substring_char(0, d)
        } else {
            name
        },
        None => name,
    }
}

/// A movie's title from its file name: the stem, cut before the first `(`,
/// trimmed.
pub fn extract_movie_title(file_name: &str) -> (r: String)
    ensures
        r@ == movie_title_spec(file_name@),
{
    let stem = movie_stem_of(file_name);
    let cut = match find_char_at(stem, '(', 0) {
        Some(i) => stem.substring_char(0, i),
        None => stem,
    };
    trim_of(cut).to_owned()
}

/// A movie's year from its file name: the four characters between the first
/// `(` of the stem and the next `)`, when they parse as an integer.
pub fn extract_year_from_filename(file_name: &str) -> (r: Option<i32>)
    ensures
        ({
            let y = movie_year_spec(file_name@);
            match r {
                Some(v) => y == Some(v as int),
                None => y is None,
            }
        }),
{
    let stem = movie_stem_of(file_name);
    let slen = stem.unicode_len();
    let i = match find_char_at(stem, '(', 0) {
        Some(i) => i,
        None => {
            return None;
        },
    };
    assert(i < slen);
    let j = match find_char_at(stem, ')', i + 1) {
        Some(j) => j,
        None => {
            return None;
        },
    };
    if j - i != 5 {
        return None;
    }
    let first = stem.get_char(i + 1);
    if first == '+' || first == '-' {
        proof {
            let inner = stem@.subrange(i + 1, j as int);
            assert(inner.subrange(1, inner.len() as int) =~= stem@.subrange(i + 2, j as int));
        }
        match parse_u64_range(stem, i + 2, j) {
            Some(v) => {
                proof {
                    lemma_digits_val_len_bound(stem@.subrange(i + 2, j as int));
                }
                if first == '-' {
                    Some(-(v as i32))
                } else {
                    Some(v as i32)
                }
            },
            None => {
                proof {
                    let part = stem@.subrange(i + 2, j as int);
                    if part.len() > 0 && all_digits(part) {
                        lemma_digits_val_len_bound(part);
                    }
                }
                None
            },
        }
    } else {
        match parse_u64_range(stem, i + 1, j) {
            Some(v) => {
                proof {
                    lemma_digits_val_len_bound(stem@.subrange(i + 1, j as int));
                }
                Some(v as i32)
            },
            None => {
                proof {
                    let part = stem@.subrange(i + 1, j as int);
                    if part.len() > 0 && all_digits(part) {
                        lemma_digits_val_len_bound(part);
                    }
                }
                None
            },
        }
    }
}

/// First position at or after `from` where `l` (ignoring ASCII case) is
/// immediately followed by two digits.
fn find_marker_dd(f: &str, l: char, from: usize) -> (r: Option<usize>)
    ensures
        match r {
            Some(i) => from <= i && i + 2 < f@.len() && find_marker_dd_from(f@, l, from as int)
                == Some(i as int) && char_eq_ci(f@[i as int], l) && is_digit_char(f@[i + 1])
                && is_digit_char(f@[i + 2]),
            None => find_marker_dd_from(f@, l, from as int) is None,
        },
{
    let n = f.unicode_len();
    let mut i = from;
    while i < n
        invariant
            from <= i,
            n == f@.len(),
            find_marker_dd_from(f@, l, from as int) == find_marker_dd_from(f@, l, i as int),
        decreases n - i,
    {
        if crate::text::char_check_ci(f.get_char(i), l) && n - i > 2 && digit_check(
            f.get_char(i + 1),
        ) && digit_check(f.get_char(i + 2)) {
            return Some(i);
        }
        i += 1;
    }
    None
}

/// Value of the two digits right after position `i`, as an `i32`.
fn two_digits_at(f: &str, i: usize) -> (v: i32)
    requires
        i + 2 < f@.len(),
        is_digit_char(f@[i + 1]),
        is_digit_char(f@[i + 2]),
    ensures
        v == two_digit_val(f@, i as int),
        0 <= v <= 99,
{
    let n = f.unicode_len();
    assert(i + 2 < n);
    let d1 = digit_value(f.get_char(i + 1));
    let d2 = digit_value(f.get_char(i + 2));
    (10 * d1 + d2) as i32
}

/// Classify an episode path into show name, season number and episode
/// number, or `None` when the path does not follow a recognized convention.
pub fn extract_tv_info(path: &str) -> (r: Option<(String, i32, i32)>)
    ensures
        ({
            let m = tv_info_spec(path@);
            match r {
                Some(t) => t.1 >= 0 && t.2 >= 0 && m == Some((t.0@, t.1 as int, t.2 as int)),
                None => m is None,
            }
        }),
{
    proof {
        reveal_strlit("season");
        reveal_strlit("episode");
    }
    let n = path.unicode_len();
    let i1 = match rfind_char_at(path, '/') {
        Some(i) => i,
        None => {
            return None;
        },
    };
    let file = path.substring_char(i1 + 1, n);
    let dir = path.substring_char(0, i1);
    let i2 = match rfind_char_at(dir, '/') {
        Some(i) => i,
        None => {
            return None;
        },
    };
    let dlen = dir.unicode_len();
    let parent = dir.substring_char(i2 + 1, dlen);
    let show = file_name_of(dir.substring_char(0, i2));
    if file.unicode_len() == 0 || parent.unicode_len() == 0 || show.unicode_len() == 0 {
        return None;
    }

    // Season, by falling precedence.
    let season: i32 = if find_word_ci(parent, "season", 0).is_some() {
        match parse_filtered_digits_i32(parent) {
            Some(v) => v,
            None => {
                return None;
            },
        }
    } else if let Some(i) = find_marker_dd(file, 's', 0) {
        two_digits_at(file, i)
    } else {
        match find_char_ci(file, 'x', 0) {
            None => {
                return None;
            },
            Some(x) => {
                let flen = file.unicode_len();
                if 0 < x && x + 1 < flen {
                    match parse_filtered_digits_i32(file.substring_char(0, x)) {
                        Some(v) => v,
                        None => {
                            return None;
                        },
                    }
                } else {
                    return None;
                }
            },
        }
    };

    // Episode, by falling precedence.
    let e_marker = match find_char_ci(file, 's', 0) {
        None => None,
        Some(s0) => find_marker_dd(file, 'e', s0 + 1),
    };
    let episode: i32 = match e_marker {
        Some(j) => two_digits_at(file, j),
        None => {
            if let Some(ep) = find_word_ci(file, "episode", 0) {
                match parse_digit_run_i32(file, ep + 7) {
                    Some(v) => v,
                    None => {
                        return None;
                    },
                }
            } else if let Some(x) = find_char_ci(file, 'x', 0) {
                let flen = file.unicode_len();
                if x + 2 < flen && digit_check(file.get_char(x + 1)) && digit_check(
                    file.get_char(x + 2),
                ) {
                    two_digits_at(file, x)
                } else {
                    return None;
                }
            } else {
                match parse_digit_run_i32(file, 0) {
                    Some(v) => v,
                    None => {
                        return None;
                    },
                }
            }
        },
    };
    Some((show.to_owned(), season, episode))
}

/// The show folder of an episode path: the directory two levels up, or the
/// empty string when the path is too shallow to classify.
pub fn show_dir_of(path: &str) -> (r: String)
    ensures
        r@ == show_dir_spec(path@),
{
    let i1 = match rfind_char_at(path, '/') {
        Some(i) => i,
        None => {
            return String::new();
        },
    };
    let dir = path.substring_char(0, i1);
    match rfind_char_at(dir, '/') {
        Some(i2) => dir.substring_char(0, i2).to_owned(),
        None => String::new(),
    }
}

/// An episode's display title from its file name: the text after a
/// `" - "` separator preceded by an episode marker, else `Episode <n>`.
pub fn extract_episode_title(file_name: &str, episode_num: i32) -> (r: String)
    requires
        episode_num >= 0,
    ensures
        r@ == episode_title_spec(file_name@, episode_num as int),
{
    proof {
        reveal_strlit(" - ");
        reveal_strlit("episode");
    }
    let n = file_name.unicode_len();
    let stem = match rfind_char_at(file_name, '.') {
        Some(d) => file_name.substring_char(0, d),
        None => file_name,
    };
    let slen = stem.unicode_len();
    if let Some(sep) = find_word_at(stem, " - ", 0) {
        let before = stem.substring_char(0, sep);
        let marker = match find_char_ci(before, 'e', 0) {
            Some(e0) => e0 + 2 < sep,
            None => false,
        };
        let marker = marker || all_digits_or_space(before) || find_word_ci(
            before,
            "episode",
            0,
        ).is_some();
        if marker {
            return trim_of(stem.substring_char(sep + 3, slen)).to_owned();
        }
    }
    let mut title = String::new();
    proof {
        reveal_strlit("Episode ");
    }
    title.append("Episode ");
    push_dec_u64(&mut title, episode_num as u64);
    proof {
        assert(Seq::<char>::empty() + "Episode "@ =~= "Episode "@);
    }
    title
}

/// Whether every character of `s` is a digit or whitespace.
fn all_digits_or_space(s: &str) -> (r: bool)
    ensures
        r == (forall|i: int|
            0 <= i < s@.len() ==> is_digit_char(#[trigger] s@[i]) || is_space_char(s@[i])),
{
    let n = s.unicode_len();
    let mut i: usize = 0;
    while i < n
        invariant
            0 <= i <= n,
            n == s@.len(),
            forall|k: int| 0 <= k < i ==> is_digit_char(#[trigger] s@[k]) || is_space_char(s@[k]),
        decreases n - i,
    {
        let c = s.get_char(i);
        if !digit_check(c) && !space_check(c) {
            return false;
        }
        i += 1;
    }
    true
}

} // verus!

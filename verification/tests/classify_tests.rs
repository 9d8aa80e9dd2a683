use mediarust::classify::{
    extract_episode_title, extract_movie_title, extract_tv_info, extract_year_from_filename,
    show_dir_of,
};
use mediarust::mime::{content_type_for_path, is_audio_file, is_video_file};

#[test]
fn classic_season_folder_with_sxxeyy_marker() {
    let r = extract_tv_info("/media/Breaking Bad/Season 01/Breaking Bad S01E03.mkv");
    assert_eq!(r, Some((String::from("Breaking Bad"), 1, 3)));
}

#[test]
fn season_folder_with_leading_ordinal() {
    let r = extract_tv_info("/media/Show/Season 2/05 - The Return.mp4");
    assert_eq!(r, Some((String::from("Show"), 2, 5)));
    assert_eq!(extract_episode_title("05 - The Return.mp4", 5), "The Return");
}

#[test]
fn axb_pattern_names_season_and_episode() {
    let r = extract_tv_info("lib/Some Band/Specials/Band 1x02.mkv");
    assert_eq!(r, Some((String::from("Some Band"), 1, 2)));
}

#[test]
fn season_folder_without_digits_fails() {
    assert_eq!(extract_tv_info("lib/Show/Season/Show S01E02.mkv"), None);
}

#[test]
fn shallow_path_fails_classification() {
    assert_eq!(extract_tv_info("episode.mkv"), None);
    assert_eq!(extract_tv_info("Season 1/episode S01E02.mkv"), None);
}

#[test]
fn unmarked_file_fails_classification() {
    assert_eq!(extract_tv_info("lib/Show/Season 1/just a note.txt"), None);
    assert_eq!(extract_tv_info("lib/Shw/Othr/vid.mkv"), None);
}

#[test]
fn show_name_taken_verbatim_from_grandparent() {
    let r = extract_tv_info("x/The Wire  (HBO)/Season 03/The Wire S03E11.mkv");
    assert_eq!(r, Some((String::from("The Wire  (HBO)"), 3, 11)));
}

#[test]
fn show_dir_is_two_levels_up() {
    assert_eq!(
        show_dir_of("/media/Breaking Bad/Season 01/ep S01E01.mkv"),
        "/media/Breaking Bad"
    );
    assert_eq!(show_dir_of("flat.mkv"), "");
}

#[test]
fn episode_title_from_marker_separator() {
    assert_eq!(
        extract_episode_title("Breaking Bad S01E03 - Ozymandias.mkv", 3),
        "Ozymandias"
    );
    assert_eq!(
        extract_episode_title("Episode 01 - Pilot.mkv", 1),
        "Pilot"
    );
}

#[test]
fn episode_title_falls_back_to_generic() {
    assert_eq!(extract_episode_title("S01E03.mkv", 3), "Episode 3");
    assert_eq!(extract_episode_title("The Return.mkv", 12), "Episode 12");
    // A separator without an episode marker before it is not a title cut.
    assert_eq!(
        extract_episode_title("Band - Live.mkv", 7),
        "Episode 7"
    );
}

#[test]
fn movie_title_and_year() {
    assert_eq!(extract_movie_title("Inception (2010).mkv"), "Inception");
    assert_eq!(extract_year_from_filename("Inception (2010).mkv"), Some(2010));
}

#[test]
fn movie_without_year() {
    assert_eq!(extract_movie_title("Plain Movie.mkv"), "Plain Movie");
    assert_eq!(extract_year_from_filename("Plain Movie.mkv"), None);
}

#[test]
fn year_needs_exactly_four_characters() {
    assert_eq!(extract_year_from_filename("Movie (199).mkv"), None);
    assert_eq!(extract_year_from_filename("Movie (19999).mkv"), None);
    assert_eq!(extract_year_from_filename("Movie (19x9).mkv"), None);
    assert_eq!(extract_movie_title("Movie (19x9).mkv"), "Movie");
}

#[test]
fn video_and_audio_extensions() {
    assert!(is_video_file("a/b.mkv"));
    assert!(is_video_file("a/b.MKV"));
    assert!(is_video_file("b.webm"));
    assert!(!is_video_file("a/b.txt"));
    assert!(!is_video_file("a/noext"));
    assert!(is_audio_file("x.flac"));
    assert!(is_audio_file("x.Mp3"));
    assert!(!is_audio_file("x.mkv"));
}

#[test]
fn content_types_follow_the_table() {
    assert_eq!(content_type_for_path("a/b.mp4"), "video/mp4");
    assert_eq!(content_type_for_path("a/b.mkv"), "video/x-matroska");
    assert_eq!(content_type_for_path("a/b.avi"), "video/x-msvideo");
    assert_eq!(content_type_for_path("a/b.mov"), "video/quicktime");
    assert_eq!(content_type_for_path("a/b.mp3"), "audio/mpeg");
    assert_eq!(content_type_for_path("a/b.flac"), "audio/flac");
    assert_eq!(content_type_for_path("a/b.m4a"), "audio/mp4");
    assert_eq!(content_type_for_path("a/b.xyz"), "application/octet-stream");
    assert_eq!(content_type_for_path("noext"), "application/octet-stream");
}

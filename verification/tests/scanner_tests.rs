use mediarust::ids::generate_id;
use mediarust::scanner::{scan_movies, scan_music, scan_tv_shows, ScanOp};

fn strings(v: &[&str]) -> Vec<String> {
    v.iter().map(|s| String::from(*s)).collect()
}

#[test]
fn movie_scan_adds_new_video_files() {
    let paths = strings(&[
        "m/Inception (2010).mkv",
        "m/Plain Movie.mp4",
        "m/notes.txt",
    ]);
    let (report, ops) = scan_movies(&paths, &Vec::new());
    assert_eq!(report.added, 2);
    assert_eq!(report.existing, 0);
    assert_eq!(ops.len(), 2);
    match &ops[0] {
        ScanOp::AddMedia(m) => {
            assert_eq!(m.title, "Inception");
            assert_eq!(m.year, Some(2010));
            assert_eq!(m.path, "m/Inception (2010).mkv");
            assert_eq!(m.media_type, "movie");
            assert!(!m.is_directory);
        },
        other => panic!("expected a media row, got {:?}", other),
    }
    match &ops[1] {
        ScanOp::AddMedia(m) => {
            assert_eq!(m.title, "Plain Movie");
            assert_eq!(m.year, None);
        },
        other => panic!("expected a media row, got {:?}", other),
    }
}

#[test]
fn movie_rescan_adds_nothing() {
    let paths = strings(&["m/Inception (2010).mkv", "m/Plain Movie.mp4", "m/notes.txt"]);
    let (first, _) = scan_movies(&paths, &Vec::new());
    // After the first run every added path is indexed.
    let indexed = strings(&["m/Inception (2010).mkv", "m/Plain Movie.mp4"]);
    let (second, ops) = scan_movies(&paths, &indexed);
    assert_eq!(second.added, 0);
    assert!(ops.is_empty());
    assert_eq!(second.existing, first.added);
}

#[test]
fn movie_scan_counts_known_paths_as_existing() {
    let paths = strings(&["m/a.mkv", "m/b.mkv"]);
    let indexed = strings(&["m/a.mkv"]);
    let (report, ops) = scan_movies(&paths, &indexed);
    assert_eq!(report.added, 1);
    assert_eq!(report.existing, 1);
    assert_eq!(ops.len(), 1);
}

#[test]
fn tv_scan_links_shows_seasons_and_episodes() {
    let paths = strings(&[
        "lib/A Show/Season 1/A Show S01E01.mkv",
        "lib/A Show/Season 1/A Show S01E02 - Two.mkv",
        "lib/A Show/Season 2/A Show S02E01.mkv",
        "lib/B/Season 1/01 - Pilot.mkv",
        "lib/readme.txt",
    ]);
    let (report, ops) = scan_tv_shows(&paths, &Vec::new());
    assert_eq!(report.added_shows, 2);
    assert_eq!(report.added_seasons, 3);
    assert_eq!(report.added_episodes, 4);
    assert_eq!(report.existing_episodes, 0);
    assert_eq!(ops.len(), 2 + 3 + 4);

    // First three ops: show row, its first season, its first episode.
    let (show_id, season_id) = match (&ops[0], &ops[1]) {
        (ScanOp::AddMedia(m), ScanOp::AddSeason(s)) => {
            assert_eq!(m.title, "A Show");
            assert_eq!(m.media_type, "tvshow");
            assert!(m.is_directory);
            assert_eq!(m.path, "lib/A Show");
            assert_eq!(s.media_id, m.id);
            assert_eq!(s.season_number, 1);
            assert_eq!(s.title.as_deref(), Some("Season 1"));
            (m.id.clone(), s.id.clone())
        },
        other => panic!("expected show then season, got {:?}", other),
    };
    match &ops[2] {
        ScanOp::AddEpisode(e) => {
            assert_eq!(e.media_id, show_id);
            assert_eq!(e.season_id, season_id);
            assert_eq!(e.episode_number, 1);
            assert_eq!(e.title, "Episode 1");
            assert_eq!(e.path, "lib/A Show/Season 1/A Show S01E01.mkv");
        },
        other => panic!("expected an episode, got {:?}", other),
    }
    // The second file of the same season adds only an episode.
    match &ops[3] {
        ScanOp::AddEpisode(e) => {
            assert_eq!(e.media_id, show_id);
            assert_eq!(e.season_id, season_id);
            assert_eq!(e.episode_number, 2);
            assert_eq!(e.title, "Two");
        },
        other => panic!("expected an episode, got {:?}", other),
    }
    // A new season of a known show adds a season and an episode.
    match &ops[4] {
        ScanOp::AddSeason(s) => {
            assert_eq!(s.media_id, show_id);
            assert_eq!(s.season_number, 2);
            assert_eq!(s.title.as_deref(), Some("Season 2"));
        },
        other => panic!("expected a season, got {:?}", other),
    }
}

#[test]
fn tv_rescan_adds_nothing() {
    let paths = strings(&[
        "lib/A Show/Season 1/A Show S01E01.mkv",
        "lib/A Show/Season 1/A Show S01E02.mkv",
        "lib/B/Season 1/01 - Pilot.mkv",
        "lib/B/Season 1/junk.txt",
    ]);
    let (first, first_ops) = scan_tv_shows(&paths, &Vec::new());
    assert_eq!(first.added_episodes, 3);
    let indexed: Vec<String> = first_ops
        .iter()
        .filter_map(|op| match op {
            ScanOp::AddEpisode(e) => Some(e.path.clone()),
            _ => None,
        })
        .collect();
    let (second, ops) = scan_tv_shows(&paths, &indexed);
    assert_eq!(second.added_shows, 0);
    assert_eq!(second.added_seasons, 0);
    assert_eq!(second.added_episodes, 0);
    assert!(ops.is_empty());
    assert_eq!(second.existing_episodes, first.added_episodes);
}

#[test]
fn tv_scan_skips_unclassifiable_files() {
    let paths = strings(&["lib/Show/Extras/interview.mkv"]);
    let (report, ops) = scan_tv_shows(&paths, &Vec::new());
    assert_eq!(report.added_shows, 0);
    assert_eq!(report.added_episodes, 0);
    assert_eq!(report.existing_episodes, 0);
    assert!(ops.is_empty());
}

#[test]
fn music_scan_is_a_stub() {
    assert_eq!(scan_music(), "Music scanning not yet implemented");
}

#[test]
fn generated_ids_are_fresh_uuids() {
    let a = generate_id();
    let b = generate_id();
    assert_eq!(a.len(), 36);
    assert_eq!(b.len(), 36);
    assert_ne!(a, b);
    assert_eq!(a.chars().nth(8), Some('-'));
}

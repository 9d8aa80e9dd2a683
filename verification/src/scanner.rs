//! The library scanner's decision core: given the file paths found under a
//! library root and the snapshot of paths already indexed, it classifies
//! every new video file and produces the rows to insert together with the
//! scan report.  Walking the directory tree and executing the inserts are
//! I/O and happen outside; the snapshot is taken once per scan and never
//! updated during it, so two concurrent scans of one library can both insert
//! a file they both discovered — a known, accepted race.
use vstd::prelude::*;

use crate::classify::{
    episode_title_spec, extract_episode_title, extract_movie_title, extract_tv_info,
    extract_year_from_filename, movie_title_spec, movie_year_spec, show_dir_of, show_dir_spec,
    tv_info_spec,
};
use crate::ids::generate_id;
use crate::mime::{file_name_of, file_name_spec, is_video_file, is_video_path};
use crate::models::{Episode, MediaAdd, Season};
use crate::text::{dec_str, push_dec_u64, vec_contains_str};

verus! {

/// A row the scanner asks the store to insert, in emission order.
#[derive(Clone, Debug, PartialEq)]
pub enum ScanOp {
    /// A new top-level media row: a movie file or a show folder.
    AddMedia(MediaAdd),
    /// A new season of a show created earlier in the same run.
    AddSeason(Season),
    /// A new episode of a show and season of this run.
    AddEpisode(Episode),
}

/// Report of a movie-library scan.
#[derive(Clone, Copy, Debug, PartialEq, Eq, Structural)]
pub struct MovieScanReport {
    pub added: u64,
    pub existing: u64,
}

/// Report of a TV-library scan.
#[derive(Clone, Copy, Debug, PartialEq, Eq, Structural)]
pub struct TvScanReport {
    pub added_shows: u64,
    pub added_seasons: u64,
    pub added_episodes: u64,
    pub existing_episodes: u64,
}

/// The character sequences of a vector of strings.
pub open spec fn str_views(v: Seq<String>) -> Seq<Seq<char>> {
    v.map_values(|s: String| s@)
}

/// The set of paths a vector of strings holds.
pub open spec fn path_set(v: Seq<String>) -> Set<Seq<char>> {
    Set::new(|p: Seq<char>| exists|k: int| 0 <= k < v.len() && v[k]@ == p)
}

/// State of a movie scan over a prefix of the discovered paths: the
/// counters, the rows to insert (title, year, path), and the set of paths
/// those rows cover.
pub ghost struct MovieScanModel {
    pub added: int,
    pub existing: int,
    pub ops: Seq<(Seq<char>, Option<int>, Seq<char>)>,
    pub added_paths: Set<Seq<char>>,
}

/// A movie scan before any path is seen.
pub open spec fn movie_init() -> MovieScanModel {
    MovieScanModel { added: 0, existing: 0, ops: Seq::empty(), added_paths: Set::empty() }
}

/// One path of a movie scan: non-video files are ignored; a path already in
/// the snapshot counts as existing; any other video file becomes a movie
/// row named after its file name.
pub open spec fn movie_step(st: MovieScanModel, p: Seq<char>, existing: Set<Seq<char>>)
    -> MovieScanModel {
    if !is_video_path(p) {
        st
    } else if existing.contains(p) {
        MovieScanModel {
            added: st.added,
            existing: st.existing + 1,
            ops: st.ops,
            added_paths: st.added_paths,
        }
    } else {
        let name = file_name_spec(p);
        MovieScanModel {
            added: st.added + 1,
            existing: st.existing,
            ops: st.ops + seq![(movie_title_spec(name), movie_year_spec(name), p)],
            added_paths: st.added_paths.insert(p),
        }
    }
}

/// A movie scan over a list of paths, in order.
pub open spec fn movie_run(paths: Seq<Seq<char>>, existing: Set<Seq<char>>, st: MovieScanModel)
    -> MovieScanModel
    decreases paths.len(),
{
    if paths.len() == 0 {
        st
    } else {
        movie_step(movie_run(paths.drop_last(), existing, st), paths.last(), existing)
    }
}

/// The optional year of a row equals the model's.
pub open spec fn year_matches(y: Option<i32>, m: Option<int>) -> bool {
    match (y, m) {
        (Option::Some(a), Option::Some(b)) => a as int == b,
        (Option::None, Option::None) => true,
        _ => false,
    }
}

/// A scan op is the movie row a model entry calls for: a media row of type
/// `movie` with the entry's title, year and path, not a directory.
pub open spec fn movie_op_matches(op: ScanOp, m: (Seq<char>, Option<int>, Seq<char>)) -> bool {
    op matches ScanOp::AddMedia(a) && a.title@ == m.0 && year_matches(a.year, m.1) && a.path@
        == m.2 && a.media_type@ == "movie"@ && a.is_directory == false
}

/// Scan a movie library: classify every discovered video file that the
/// snapshot of already-indexed paths does not hold, and emit one movie row
/// for each.  Files the classifier cannot name are impossible here (every
/// video file has a file name), so every new video file is added.
pub fn scan_movies(paths: &Vec<String>, existing: &Vec<String>) -> (r: (
    MovieScanReport,
    Vec<ScanOp>,
))
    ensures
        ({
            let m = movie_run(str_views(paths@), path_set(existing@), movie_init());
            &&& r.0.added as int == m.added
            &&& r.0.existing as int == m.existing
            &&& r.1@.len() == m.ops.len()
            &&& forall|i: int|
                0 <= i < m.ops.len() ==> movie_op_matches(#[trigger] r.1@[i], m.ops[i])
        }),
{
    let ghost vs = str_views(paths@);
    let ghost ex = path_set(existing@);
    let mut added: u64 = 0;
    let mut existing_count: u64 = 0;
    let mut ops: Vec<ScanOp> = Vec::new();
    let mut i: usize = 0;
    proof {
        assert(vs.take(0) =~= Seq::<Seq<char>>::empty());
    }
    while i < paths.len()
        invariant
            0 <= i <= paths@.len(),
            vs == str_views(paths@),
            ex == path_set(existing@),
            added <= i,
            existing_count <= i,
            ({
                let m = movie_run(vs.take(i as int), ex, movie_init());
                &&& added as int == m.added
                &&& existing_count as int == m.existing
                &&& ops@.len() == m.ops.len()
                &&& forall|k: int|
                    0 <= k < m.ops.len() ==> movie_op_matches(#[trigger] ops@[k], m.ops[k])
            }),
        decreases paths@.len() - i,
    {
        proof {
            assert(vs.take(i + 1).drop_last() =~= vs.take(i as int));
            assert(vs.take(i + 1).last() == vs[i as int]);
        }
        let ghost pre = movie_run(vs.take(i as int), ex, movie_init());
        let path = &paths[i];
        if is_video_file(path.as_str()) {
            if vec_contains_str(existing, path.as_str()) {
                existing_count += 1;
            } else {
                let name = file_name_of(path.as_str());
                let title = extract_movie_title(name);
                let year = extract_year_from_filename(name);
                let op = ScanOp::AddMedia(
                    MediaAdd {
                        id: generate_id(),
                        title,
                        media_type: String::from_str("movie"),
                        year,
                        path: path.clone(),
                        is_directory: false,
                    },
                );
                ops.push(op);
                added += 1;
                proof {
                    let m = movie_run(vs.take(i + 1), ex, movie_init());
                    assert(m.ops == pre.ops + seq![
                        (
                            movie_title_spec(file_name_spec(vs[i as int])),
                            movie_year_spec(file_name_spec(vs[i as int])),
                            vs[i as int],
                        ),
                    ]);
                    assert(forall|k: int|
                        0 <= k < pre.ops.len() ==> #[trigger] m.ops[k] == pre.ops[k]);
                }
            }
        }
        i += 1;
    }
    proof {
        assert(vs.take(paths@.len() as int) =~= vs);
    }
    (MovieScanReport { added, existing: existing_count }, ops)
}

/// A row a TV scan emits, with identifiers abstracted away: rows are linked
/// by show name and season number, which within one run name the generated
/// identifiers uniquely.
pub ghost enum TvOpModel {
    /// A show first encountered in this run: its verbatim name and its
    /// folder (the directory two levels above the episode file).
    Show(Seq<char>, Seq<char>),
    /// A season first encountered in this run: show name, season number.
    NewSeason(Seq<char>, int),
    /// An episode file: show name, season number, episode number, file path.
    NewEpisode(Seq<char>, int, int, Seq<char>),
}

/// State of a TV scan over a prefix of the discovered paths.
pub ghost struct TvScanModel {
    /// Names of shows already processed this run.
    pub shows: Set<Seq<char>>,
    /// Seasons already processed this run, keyed by show name and number.
    pub seasons: Set<(Seq<char>, int)>,
    pub added_shows: int,
    pub added_seasons: int,
    pub added_episodes: int,
    pub existing: int,
    pub ops: Seq<TvOpModel>,
    /// Paths of the episode rows emitted this run.
    pub episode_paths: Set<Seq<char>>,
}

/// A TV scan before any path is seen.
pub open spec fn tv_init() -> TvScanModel {
    TvScanModel {
        shows: Set::empty(),
        seasons: Set::empty(),
        added_shows: 0,
        added_seasons: 0,
        added_episodes: 0,
        existing: 0,
        ops: Seq::empty(),
        episode_paths: Set::empty(),
    }
}

/// One path of a TV scan: non-video files are ignored; a path already in the
/// snapshot counts as existing; a classified new file contributes a show row
/// and a season row on their first encounter this run, and an episode row
/// always; an unclassifiable file is skipped silently.
pub open spec fn tv_step(st: TvScanModel, p: Seq<char>, existing: Set<Seq<char>>) -> TvScanModel {
    if !is_video_path(p) {
        st
    } else if existing.contains(p) {
        TvScanModel {
            shows: st.shows,
            seasons: st.seasons,
            added_shows: st.added_shows,
            added_seasons: st.added_seasons,
            added_episodes: st.added_episodes,
            existing: st.existing + 1,
            ops: st.ops,
            episode_paths: st.episode_paths,
        }
    } else {
        match tv_info_spec(p) {
            None => st,
            Some(info) => {
                let show = info.0;
                let se = info.1;
                let ep = info.2;
                let new_show = !st.shows.contains(show);
                let new_season = !st.seasons.contains((show, se));
                let show_ops: Seq<TvOpModel> = if new_show {
                    seq![TvOpModel::Show(show, show_dir_spec(p))]
                } else {
                    Seq::empty()
                };
                let season_ops: Seq<TvOpModel> = if new_season {
                    seq![TvOpModel::NewSeason(show, se)]
                } else {
                    Seq::empty()
                };
                TvScanModel {
                    shows: st.shows.insert(show),
                    seasons: st.seasons.insert((show, se)),
                    added_shows: st.added_shows + if new_show {
                        1int
                    } else {
                        0int
                    },
                    added_seasons: st.added_seasons + if new_season {
                        1int
                    } else {
                        0int
                    },
                    added_episodes: st.added_episodes + 1,
                    existing: st.existing,
                    ops: st.ops + show_ops + season_ops + seq![
                        TvOpModel::NewEpisode(show, se, ep, p),
                    ],
                    episode_paths: st.episode_paths.insert(p),
                }
            },
        }
    }
}

/// A TV scan over a list of paths, in order.
pub open spec fn tv_run(paths: Seq<Seq<char>>, existing: Set<Seq<char>>, st: TvScanModel)
    -> TvScanModel
    decreases paths.len(),
{
    if paths.len() == 0 {
        st
    } else {
        tv_step(tv_run(paths.drop_last(), existing, st), paths.last(), existing)
    }
}

/// Some earlier op inserts a media row for show `show` under identifier
/// `id`: what it means for a later row's `media_id` to be well linked.
pub open spec fn show_linked(ops: Seq<ScanOp>, i: int, show: Seq<char>, id: Seq<char>) -> bool {
    exists|j: int|
        0 <= j < i && ((#[trigger] ops[j]) matches ScanOp::AddMedia(a) && a.title@ == show && a.id@
            == id)
}

/// Some earlier op inserts a season row numbered `se` for the media row
/// `mid`, under identifier `sid`.
pub open spec fn season_linked(
    ops: Seq<ScanOp>,
    i: int,
    se: int,
    sid: Seq<char>,
    mid: Seq<char>,
) -> bool {
    exists|k: int|
        0 <= k < i && ((#[trigger] ops[k]) matches ScanOp::AddSeason(s) && s.media_id@ == mid
            && s.season_number as int == se && s.id@ == sid)
}

/// The op at position `i` is the row its model entry calls for, with its
/// identifier references pointing at rows emitted earlier in the run.
pub open spec fn tv_op_matches(ops: Seq<ScanOp>, i: int, m: TvOpModel) -> bool {
    match m {
        TvOpModel::Show(title, path) => ops[i] matches ScanOp::AddMedia(a) && a.title@ == title
            && a.path@ == path && a.media_type@ == "tvshow"@ && a.is_directory == true
            && a.year is None,
        TvOpModel::NewSeason(show, num) => ops[i] matches ScanOp::AddSeason(s)
            && s.season_number as int == num && (s.title matches Some(t) && t@ == "Season "@
            + dec_str(num as nat)) && show_linked(ops, i, show, s.media_id@),
        TvOpModel::NewEpisode(show, se, ep, path) => ops[i] matches ScanOp::AddEpisode(e)
            && e.episode_number as int == ep && e.path@ == path && e.title@ == episode_title_spec(
            file_name_spec(path),
            ep,
        ) && show_linked(ops, i, show, e.media_id@) && season_linked(
            ops,
            i,
            se,
            e.season_id@,
            e.media_id@,
        ),
    }
}

/// Extending the op list does not unlink a show reference.
proof fn lemma_show_linked_extend(
    ops1: Seq<ScanOp>,
    ops2: Seq<ScanOp>,
    i1: int,
    i2: int,
    show: Seq<char>,
    id: Seq<char>,
)
    requires
        show_linked(ops1, i1, show, id),
        i1 <= ops1.len(),
        i1 <= i2 <= ops2.len(),
        forall|j: int| 0 <= j < i1 ==> ops2[j] == ops1[j],
    ensures
        show_linked(ops2, i2, show, id),
{
    let j = choose|j: int|
        0 <= j < i1 && ((#[trigger] ops1[j]) matches ScanOp::AddMedia(a) && a.title@ == show
            && a.id@ == id);
    assert(ops2[j] == ops1[j]);
    assert(0 <= j < i2 && (ops2[j] matches ScanOp::AddMedia(a) && a.title@ == show && a.id@ == id));
}

/// Extending the op list does not unlink a season reference.
proof fn lemma_season_linked_extend(
    ops1: Seq<ScanOp>,
    ops2: Seq<ScanOp>,
    i1: int,
    i2: int,
    se: int,
    sid: Seq<char>,
    mid: Seq<char>,
)
    requires
        season_linked(ops1, i1, se, sid, mid),
        i1 <= ops1.len(),
        i1 <= i2 <= ops2.len(),
        forall|j: int| 0 <= j < i1 ==> ops2[j] == ops1[j],
    ensures
        season_linked(ops2, i2, se, sid, mid),
{
    let k = choose|k: int|
        0 <= k < i1 && ((#[trigger] ops1[k]) matches ScanOp::AddSeason(s) && s.media_id@ == mid
            && s.season_number as int == se && s.id@ == sid);
    assert(ops2[k] == ops1[k]);
    assert(0 <= k < i2 && (ops2[k] matches ScanOp::AddSeason(s) && s.media_id@ == mid
        && s.season_number as int == se && s.id@ == sid));
}

/// An op keeps matching its model entry when later ops are appended.
proof fn lemma_tv_op_matches_extend(ops1: Seq<ScanOp>, ops2: Seq<ScanOp>, i: int, m: TvOpModel)
    requires
        tv_op_matches(ops1, i, m),
        0 <= i < ops1.len(),
        ops1.len() <= ops2.len(),
        forall|j: int| 0 <= j < ops1.len() ==> ops2[j] == ops1[j],
    ensures
        tv_op_matches(ops2, i, m),
{
    assert(ops2[i] == ops1[i]);
    match m {
        TvOpModel::Show(_title, _path) => {},
        TvOpModel::NewSeason(show, _num) => {
            let s = ops1[i]->AddSeason_0;
            lemma_show_linked_extend(ops1, ops2, i, i, show, s.media_id@);
        },
        TvOpModel::NewEpisode(show, se, _ep, _path) => {
            let e = ops1[i]->AddEpisode_0;
            lemma_show_linked_extend(ops1, ops2, i, i, show, e.media_id@);
            lemma_season_linked_extend(ops1, ops2, i, i, se, e.season_id@, e.media_id@);
        },
    }
}

/// Names of the shows processed this run.
pub open spec fn show_name_set(v: Seq<(String, String)>) -> Set<Seq<char>> {
    Set::new(|n: Seq<char>| exists|t: int| 0 <= t < v.len() && (#[trigger] v[t]).0@ == n)
}

/// Keys of the seasons processed this run: show name and season number.
pub open spec fn season_key_set(v: Seq<(String, i32, String, String)>) -> Set<(Seq<char>, int)> {
    Set::new(
        |k: (Seq<char>, int)|
            exists|t: int|
                0 <= t < v.len() && (#[trigger] v[t]).0@ == k.0 && v[t].1 as int == k.1,
    )
}

/// The identifier generated for a show name this run, if any.
fn find_show_id(shows: &Vec<(String, String)>, name: &str) -> (r: Option<String>)
    ensures
        match r {
            Some(id) => exists|t: int|
                0 <= t < shows@.len() && (#[trigger] shows@[t]).0@ == name@ && shows@[t].1@ == id@,
            None => forall|t: int| 0 <= t < shows@.len() ==> (#[trigger] shows@[t]).0@ != name@,
        },
{
    let mut t: usize = 0;
    while t < shows.len()
        invariant
            0 <= t <= shows@.len(),
            forall|u: int| 0 <= u < t ==> (#[trigger] shows@[u]).0@ != name@,
        decreases shows@.len() - t,
    {
        if crate::text::str_eq_str(shows[t].0.as_str(), name) {
            return Some(shows[t].1.clone());
        }
        t += 1;
    }
    None
}

/// The season and show identifiers stored for a show name and season number
/// this run, if any.
fn find_season(seasons: &Vec<(String, i32, String, String)>, name: &str, num: i32) -> (r: Option<
    (String, String),
>)
    ensures
        match r {
            Some(p) => exists|t: int|
                0 <= t < seasons@.len() && (#[trigger] seasons@[t]).0@ == name@ && seasons@[t].1
                    == num && seasons@[t].2@ == p.0@ && seasons@[t].3@ == p.1@,
            None => forall|t: int|
                0 <= t < seasons@.len() ==> !((#[trigger] seasons@[t]).0@ == name@
                    && seasons@[t].1 == num),
        },
{
    let mut t: usize = 0;
    while t < seasons.len()
        invariant
            0 <= t <= seasons@.len(),
            forall|u: int|
                0 <= u < t ==> !((#[trigger] seasons@[u]).0@ == name@ && seasons@[u].1 == num),
        decreases seasons@.len() - t,
    {
        if crate::text::str_eq_str(seasons[t].0.as_str(), name) && seasons[t].1 == num {
            return Some((seasons[t].2.clone(), seasons[t].3.clone()));
        }
        t += 1;
    }
    None
}

/// Pushing a show entry inserts its name into the processed-show set.
proof fn lemma_show_set_push(v: Seq<(String, String)>, entry: (String, String))
    ensures
        show_name_set(v.push(entry)) =~= show_name_set(v).insert(entry.0@),
{
    let w = v.push(entry);
    assert forall|n: Seq<char>| show_name_set(w).contains(n) implies show_name_set(v).insert(
        entry.0@,
    ).contains(n) by {
        let t = choose|t: int| 0 <= t < w.len() && (#[trigger] w[t]).0@ == n;
        if t < v.len() {
            assert(v[t] == w[t]);
        }
    };
    assert forall|n: Seq<char>| show_name_set(v).insert(entry.0@).contains(n) implies show_name_set(
        w,
    ).contains(n) by {
        if n == entry.0@ {
            assert(w[v.len() as int].0@ == n);
        } else {
            let t = choose|t: int| 0 <= t < v.len() && (#[trigger] v[t]).0@ == n;
            assert(w[t].0@ == n);
        }
    };
}

/// Pushing a season entry inserts its key into the processed-season set.
proof fn lemma_season_set_push(v: Seq<(String, i32, String, String)>, entry: (String, i32, String, String))
    ensures
        season_key_set(v.push(entry)) =~= season_key_set(v).insert((entry.0@, entry.1 as int)),
{
    let w = v.push(entry);
    assert forall|k: (Seq<char>, int)| season_key_set(w).contains(k) implies season_key_set(
        v,
    ).insert((entry.0@, entry.1 as int)).contains(k) by {
        let t = choose|t: int|
            0 <= t < w.len() && (#[trigger] w[t]).0@ == k.0 && w[t].1 as int == k.1;
        if t < v.len() {
            assert(v[t] == w[t]);
        }
    };
    assert forall|k: (Seq<char>, int)| season_key_set(v).insert(
        (entry.0@, entry.1 as int),
    ).contains(k) implies season_key_set(w).contains(k) by {
        if k == (entry.0@, entry.1 as int) {
            assert(w[v.len() as int].0@ == k.0 && w[v.len() as int].1 as int == k.1);
        } else {
            let t = choose|t: int|
                0 <= t < v.len() && (#[trigger] v[t]).0@ == k.0 && v[t].1 as int == k.1;
            assert(w[t].0@ == k.0 && w[t].1 as int == k.1);
        }
    };
}

/// Scan a TV library: classify every discovered video file that the episode
/// snapshot does not hold; the first file of a show this run also creates
/// the show's media row, the first file of a season its season row, and
/// every classified file an episode row.  Files the classifier cannot place
/// are skipped silently.
pub fn scan_tv_shows(paths: &Vec<String>, existing: &Vec<String>) -> (r: (TvScanReport, Vec<ScanOp>))
    ensures
        ({
            let m = tv_run(str_views(paths@), path_set(existing@), tv_init());
            &&& r.0.added_shows as int == m.added_shows
            &&& r.0.added_seasons as int == m.added_seasons
            &&& r.0.added_episodes as int == m.added_episodes
            &&& r.0.existing_episodes as int == m.existing
            &&& r.1@.len() == m.ops.len()
            &&& forall|k: int| 0 <= k < m.ops.len() ==> tv_op_matches(r.1@, k, m.ops[k])
        }),
{
    let ghost vs = str_views(paths@);
    let ghost ex = path_set(existing@);
    let mut added_shows: u64 = 0;
    let mut added_seasons: u64 = 0;
    let mut added_episodes: u64 = 0;
    let mut existing_count: u64 = 0;
    let mut ops: Vec<ScanOp> = Vec::new();
    let mut shows: Vec<(String, String)> = Vec::new();
    let mut seasons: Vec<(String, i32, String, String)> = Vec::new();
    let mut i: usize = 0;
    proof {
        assert(vs.take(0) =~= Seq::<Seq<char>>::empty());
        assert(show_name_set(shows@) =~= Set::<Seq<char>>::empty());
        assert(season_key_set(seasons@) =~= Set::<(Seq<char>, int)>::empty());
    }
    while i < paths.len()
        invariant
            0 <= i <= paths@.len(),
            vs == str_views(paths@),
            ex == path_set(existing@),
            added_shows <= i,
            added_seasons <= i,
            added_episodes <= i,
            existing_count <= i,
            ({
                let st = tv_run(vs.take(i as int), ex, tv_init());
                &&& added_shows as int == st.added_shows
                &&& added_seasons as int == st.added_seasons
                &&& added_episodes as int == st.added_episodes
                &&& existing_count as int == st.existing
                &&& st.shows == show_name_set(shows@)
                &&& st.seasons == season_key_set(seasons@)
                &&& ops@.len() == st.ops.len()
                &&& forall|k: int| 0 <= k < st.ops.len() ==> tv_op_matches(ops@, k, st.ops[k])
            }),
            forall|t: int|
                0 <= t < shows@.len() ==> show_linked(
                    ops@,
                    ops@.len() as int,
                    (#[trigger] shows@[t]).0@,
                    shows@[t].1@,
                ),
            forall|t: int|
                0 <= t < seasons@.len() ==> season_linked(
                    ops@,
                    ops@.len() as int,
                    (#[trigger] seasons@[t]).1 as int,
                    seasons@[t].2@,
                    seasons@[t].3@,
                ),
            forall|t: int|
                0 <= t < seasons@.len() ==> show_linked(
                    ops@,
                    ops@.len() as int,
                    (#[trigger] seasons@[t]).0@,
                    seasons@[t].3@,
                ),
        decreases paths@.len() - i,
    {
        proof {
            assert(vs.take(i + 1).drop_last() =~= vs.take(i as int));
            assert(vs.take(i + 1).last() == vs[i as int]);
        }
        let ghost pre = tv_run(vs.take(i as int), ex, tv_init());
        let ghost old_ops = ops@;
        let ghost old_shows = shows@;
        let ghost old_seasons = seasons@;
        let path = &paths[i];
        if is_video_file(path.as_str()) {
            if vec_contains_str(existing, path.as_str()) {
                existing_count += 1;
            } else {
                match extract_tv_info(path.as_str()) {
                    None => {},
                    Some(info) => {
                        let (show_name, se, ep) = info;
                        let ghost p = vs[i as int];
                        let ghost base = old_ops.len() as int;
                        let ghost new_show = !pre.shows.contains(show_name@);
                        // Show row: first encounter this run creates it,
                        // later encounters reuse the generated identifier.
                        let mid: String = match find_show_id(&shows, show_name.as_str()) {
                            Some(id) => {
                                proof {
                                    assert(pre.shows.contains(show_name@));
                                }
                                id
                            },
                            None => {
                                let id = generate_id();
                                let op = ScanOp::AddMedia(
                                    MediaAdd {
                                        id: id.clone(),
                                        title: show_name.clone(),
                                        media_type: String::from_str("tvshow"),
                                        year: None,
                                        path: show_dir_of(path.as_str()),
                                        is_directory: true,
                                    },
                                );
                                ops.push(op);
                                shows.push((show_name.clone(), id.clone()));
                                added_shows += 1;
                                proof {
                                    assert(!pre.shows.contains(show_name@));
                                    assert(ops@[base] matches ScanOp::AddMedia(a) && a.title@
                                        == show_name@ && a.id@ == id@);
                                }
                                id
                            },
                        };
                        let ghost ops_after_show = ops@;
                        proof {
                            assert(forall|j: int| 0 <= j < base ==> ops_after_show[j] == old_ops[j]);
                            assert(show_linked(
                                ops_after_show,
                                ops_after_show.len() as int,
                                show_name@,
                                mid@,
                            )) by {
                                if new_show {
                                    assert(ops_after_show[base] matches ScanOp::AddMedia(a)
                                        && a.title@ == show_name@ && a.id@ == mid@);
                                } else {
                                    let t = choose|t: int|
                                        0 <= t < old_shows.len() && (#[trigger] old_shows[t]).0@
                                            == show_name@ && old_shows[t].1@ == mid@;
                                    lemma_show_linked_extend(
                                        old_ops,
                                        ops_after_show,
                                        base,
                                        ops_after_show.len() as int,
                                        show_name@,
                                        mid@,
                                    );
                                }
                            };
                        }
                        let ghost new_season = !pre.seasons.contains((show_name@, se as int));
                        // Season row: created once per (show, number) this
                        // run; the stored identifiers are reused afterwards.
                        let found_season = find_season(&seasons, show_name.as_str(), se);
                        let (sid, emid): (String, String) = match found_season {
                            Some(pair) => {
                                proof {
                                    assert(pre.seasons.contains((show_name@, se as int)));
                                }
                                pair
                            },
                            None => {
                                let sid = generate_id();
                                let op = ScanOp::AddSeason(
                                    Season {
                                        id: sid.clone(),
                                        media_id: mid.clone(),
                                        season_number: se,
                                        title: Some(season_title(se)),
                                        overview: None,
                                        poster_path: None,
                                    },
                                );
                                ops.push(op);
                                seasons.push((show_name.clone(), se, sid.clone(), mid.clone()));
                                added_seasons += 1;
                                proof {
                                    assert(!pre.seasons.contains((show_name@, se as int)));
                                    let si = ops@.len() - 1;
                                    assert(ops@[si] matches ScanOp::AddSeason(s) && s.media_id@
                                        == mid@ && s.season_number as int == se as int && s.id@
                                        == sid@);
                                }
                                (sid, mid.clone())
                            },
                        };
                        let ghost ops_after_season = ops@;
                        proof {
                            assert(forall|j: int|
                                0 <= j < ops_after_show.len() ==> ops_after_season[j]
                                    == ops_after_show[j]);
                            assert(forall|j: int| 0 <= j < base ==> ops_after_season[j] == old_ops[j]);
                            // The episode row's identifiers are well linked.
                            assert(show_linked(
                                ops_after_season,
                                ops_after_season.len() as int,
                                show_name@,
                                emid@,
                            ) && season_linked(
                                ops_after_season,
                                ops_after_season.len() as int,
                                se as int,
                                sid@,
                                emid@,
                            )) by {
                                if new_season {
                                    assert(emid@ == mid@);
                                    lemma_show_linked_extend(
                                        ops_after_show,
                                        ops_after_season,
                                        ops_after_show.len() as int,
                                        ops_after_season.len() as int,
                                        show_name@,
                                        mid@,
                                    );
                                    let si = ops_after_season.len() - 1;
                                    assert(ops_after_season[si] matches ScanOp::AddSeason(s)
                                        && s.media_id@ == emid@ && s.season_number as int
                                        == se as int && s.id@ == sid@);
                                } else {
                                    let t = choose|t: int|
                                        0 <= t < old_seasons.len() && (#[trigger] old_seasons[t]).0@
                                            == show_name@ && old_seasons[t].1 == se
                                            && old_seasons[t].2@ == sid@ && old_seasons[t].3@
                                            == emid@;
                                    lemma_season_linked_extend(
                                        old_ops,
                                        ops_after_season,
                                        base,
                                        ops_after_season.len() as int,
                                        se as int,
                                        sid@,
                                        emid@,
                                    );
                                    lemma_show_linked_extend(
                                        old_ops,
                                        ops_after_season,
                                        base,
                                        ops_after_season.len() as int,
                                        show_name@,
                                        emid@,
                                    );
                                }
                            };
                        }
                        // Episode row: one per classified file, always.
                        let file = file_name_of(path.as_str());
                        let e_title = extract_episode_title(file, ep);
                        let op = ScanOp::AddEpisode(
                            Episode {
                                id: generate_id(),
                                media_id: emid,
                                season_id: sid,
                                episode_number: ep,
                                title: e_title,
                                overview: None,
                                path: path.clone(),
                                still_path: None,
                                air_date: None,
                                runtime: None,
                            },
                        );
                        ops.push(op);
                        added_episodes += 1;
                        proof {
                            let st2 = tv_run(vs.take(i + 1), ex, tv_init());
                            let ei = ops@.len() - 1;
                            assert(forall|j: int|
                                0 <= j < ops_after_season.len() ==> ops@[j] == ops_after_season[j]);
                            assert(forall|j: int| 0 <= j < base ==> ops@[j] == old_ops[j]);
                            // The freshly pushed ops match their model rows.
                            assert(tv_op_matches(ops@, ei, TvOpModel::NewEpisode(show_name@, se as int, ep as int, p))) by {
                                lemma_show_linked_extend(
                                    ops_after_season,
                                    ops@,
                                    ops_after_season.len() as int,
                                    ei,
                                    show_name@,
                                    ops@[ei]->AddEpisode_0.media_id@,
                                );
                                lemma_season_linked_extend(
                                    ops_after_season,
                                    ops@,
                                    ops_after_season.len() as int,
                                    ei,
                                    se as int,
                                    ops@[ei]->AddEpisode_0.season_id@,
                                    ops@[ei]->AddEpisode_0.media_id@,
                                );
                            };
                            // Model ops of this step, positionally.
                            assert(st2.ops =~= pre.ops + (if new_show {
                                seq![TvOpModel::Show(show_name@, show_dir_spec(p))]
                            } else {
                                Seq::<TvOpModel>::empty()
                            }) + (if new_season {
                                seq![TvOpModel::NewSeason(show_name@, se as int)]
                            } else {
                                Seq::<TvOpModel>::empty()
                            }) + seq![TvOpModel::NewEpisode(show_name@, se as int, ep as int, p)]);
                            assert(ops@.len() == st2.ops.len());
                            assert forall|k: int| 0 <= k < st2.ops.len() implies tv_op_matches(
                                ops@,
                                k,
                                st2.ops[k],
                            ) by {
                                if k < base {
                                    assert(st2.ops[k] == pre.ops[k]);
                                    lemma_tv_op_matches_extend(old_ops, ops@, k, pre.ops[k]);
                                } else if new_show && k == base {
                                    assert(st2.ops[k] == TvOpModel::Show(
                                        show_name@,
                                        show_dir_spec(p),
                                    ));
                                    assert(ops@[k] == ops_after_show[k]);
                                } else if k == ei {
                                    assert(st2.ops[k] == TvOpModel::NewEpisode(
                                        show_name@,
                                        se as int,
                                        ep as int,
                                        p,
                                    ));
                                } else {
                                    // The season row's position.
                                    assert(new_season);
                                    assert(st2.ops[k] == TvOpModel::NewSeason(
                                        show_name@,
                                        se as int,
                                    ));
                                    assert(ops@[k] == ops_after_season[k]);
                                    assert(ops_after_season[k] matches ScanOp::AddSeason(s)
                                        && s.media_id@ == mid@);
                                    lemma_show_linked_extend(
                                        ops_after_season,
                                        ops@,
                                        k,
                                        k,
                                        show_name@,
                                        mid@,
                                    );
                                }
                            };
                            // Processed-set views stay aligned.
                            if new_show {
                                lemma_show_set_push(
                                    old_shows,
                                    (shows@[old_shows.len() as int]),
                                );
                                assert(shows@ == old_shows.push(shows@[old_shows.len() as int]));
                            } else {
                                assert(pre.shows.insert(show_name@) =~= pre.shows);
                            }
                            if new_season {
                                lemma_season_set_push(
                                    old_seasons,
                                    (seasons@[old_seasons.len() as int]),
                                );
                                assert(seasons@ == old_seasons.push(
                                    seasons@[old_seasons.len() as int],
                                ));
                            } else {
                                assert(pre.seasons.insert((show_name@, se as int))
                                    =~= pre.seasons);
                            }
                            // Link invariants survive the pushes.
                            assert forall|t: int| 0 <= t < shows@.len() implies show_linked(
                                ops@,
                                ops@.len() as int,
                                (#[trigger] shows@[t]).0@,
                                shows@[t].1@,
                            ) by {
                                if t < old_shows.len() {
                                    assert(shows@[t] == old_shows[t]);
                                    lemma_show_linked_extend(
                                        old_ops,
                                        ops@,
                                        base,
                                        ops@.len() as int,
                                        old_shows[t].0@,
                                        old_shows[t].1@,
                                    );
                                } else {
                                    assert(ops@[base] matches ScanOp::AddMedia(a) && a.title@
                                        == shows@[t].0@ && a.id@ == shows@[t].1@);
                                }
                            };
                            assert forall|t: int| 0 <= t < seasons@.len() implies season_linked(
                                ops@,
                                ops@.len() as int,
                                (#[trigger] seasons@[t]).1 as int,
                                seasons@[t].2@,
                                seasons@[t].3@,
                            ) && show_linked(
                                ops@,
                                ops@.len() as int,
                                seasons@[t].0@,
                                seasons@[t].3@,
                            ) by {
                                if t < old_seasons.len() {
                                    assert(seasons@[t] == old_seasons[t]);
                                    lemma_season_linked_extend(
                                        old_ops,
                                        ops@,
                                        base,
                                        ops@.len() as int,
                                        old_seasons[t].1 as int,
                                        old_seasons[t].2@,
                                        old_seasons[t].3@,
                                    );
                                    lemma_show_linked_extend(
                                        old_ops,
                                        ops@,
                                        base,
                                        ops@.len() as int,
                                        old_seasons[t].0@,
                                        old_seasons[t].3@,
                                    );
                                } else {
                                    let si = ops_after_season.len() - 1;
                                    assert(ops@[si] matches ScanOp::AddSeason(s) && s.media_id@
                                        == seasons@[t].3@ && s.season_number as int
                                        == seasons@[t].1 as int && s.id@ == seasons@[t].2@);
                                    assert(show_linked(
                                        ops_after_season,
                                        ops_after_season.len() as int,
                                        show_name@,
                                        mid@,
                                    ));
                                    lemma_show_linked_extend(
                                        ops_after_season,
                                        ops@,
                                        ops_after_season.len() as int,
                                        ops@.len() as int,
                                        show_name@,
                                        mid@,
                                    );
                                }
                            };
                        }
                    },
                }
            }
        }
        i += 1;
    }
    proof {
        assert(vs.take(paths@.len() as int) =~= vs);
    }
    (
        TvScanReport {
            added_shows,
            added_seasons,
            added_episodes,
            existing_episodes: existing_count,
        },
        ops,
    )
}

/// Scan a music library: a deliberate stub.  The classifier's precedence
/// rules are shaped for video file names and do not carry over to audio,
/// which would need tag metadata; a music scan therefore reports the feature
/// as unimplemented and inserts nothing.
pub fn scan_music() -> (r: String)
    ensures
        r@ == "Music scanning not yet implemented"@,
{
    String::from_str("Music scanning not yet implemented")
}

/// Every video file that the snapshot does not hold is in the added-path set
/// a movie scan leaves behind.
proof fn lemma_movie_added_paths_complete(
    paths: Seq<Seq<char>>,
    existing: Set<Seq<char>>,
    st: MovieScanModel,
)
    ensures
        forall|j: int|
            0 <= j < paths.len() && is_video_path(#[trigger] paths[j]) && !existing.contains(
                paths[j],
            ) ==> movie_run(paths, existing, st).added_paths.contains(paths[j]),
        forall|p: Seq<char>|
            st.added_paths.contains(p) ==> movie_run(paths, existing, st).added_paths.contains(p),
    decreases paths.len(),
{
    if paths.len() > 0 {
        lemma_movie_added_paths_complete(paths.drop_last(), existing, st);
        assert(forall|j: int| 0 <= j < paths.len() - 1 ==> paths.drop_last()[j] == paths[j]);
    }
}

/// A scan whose snapshot already holds every video path adds nothing and
/// counts one existing file where the first scan counted one existing or one
/// added file.
proof fn lemma_movie_rescan_general(paths: Seq<Seq<char>>, existing: Set<Seq<char>>, e2: Set<Seq<char>>)
    requires
        forall|j: int|
            0 <= j < paths.len() && is_video_path(#[trigger] paths[j]) ==> e2.contains(paths[j]),
    ensures
        ({
            let m1 = movie_run(paths, existing, movie_init());
            let m2 = movie_run(paths, e2, movie_init());
            &&& m2.added == 0
            &&& m2.ops.len() == 0
            &&& m2.existing == m1.existing + m1.added
        }),
    decreases paths.len(),
{
    if paths.len() > 0 {
        lemma_movie_rescan_general(paths.drop_last(), existing, e2);
        assert(forall|j: int| 0 <= j < paths.len() - 1 ==> paths.drop_last()[j] == paths[j]);
    }
}

/// Running a movie scan again over an unchanged tree, with the snapshot
/// extended by what the first run added, adds nothing: every file the first
/// run added or already saw is counted as existing the second time.
pub proof fn lemma_movie_scan_idempotent(paths: Seq<Seq<char>>, existing: Set<Seq<char>>)
    ensures
        ({
            let m1 = movie_run(paths, existing, movie_init());
            let m2 = movie_run(paths, existing.union(m1.added_paths), movie_init());
            &&& m2.added == 0
            &&& m2.ops.len() == 0
            &&& m2.existing == m1.existing + m1.added
        }),
{
    let m1 = movie_run(paths, existing, movie_init());
    lemma_movie_added_paths_complete(paths, existing, movie_init());
    assert(forall|j: int|
        0 <= j < paths.len() && is_video_path(#[trigger] paths[j]) ==> existing.union(
            m1.added_paths,
        ).contains(paths[j]));
    lemma_movie_rescan_general(paths, existing, existing.union(m1.added_paths));
}

/// A movie scan with an empty snapshot counts nothing as existing.
proof fn lemma_movie_fresh_counts_nothing_existing(paths: Seq<Seq<char>>)
    ensures
        movie_run(paths, Set::empty(), movie_init()).existing == 0,
    decreases paths.len(),
{
    if paths.len() > 0 {
        lemma_movie_fresh_counts_nothing_existing(paths.drop_last());
    }
}

/// Scanning a fresh movie library twice over an unchanged tree: the second
/// run inserts nothing and its existing count equals what the first run
/// added.
pub proof fn lemma_movie_rescan_of_fresh_library(paths: Seq<Seq<char>>)
    ensures
        ({
            let m1 = movie_run(paths, Set::empty(), movie_init());
            let m2 = movie_run(paths, m1.added_paths, movie_init());
            &&& m2.added == 0
            &&& m2.ops.len() == 0
            &&& m2.existing == m1.added
        }),
{
    let m1 = movie_run(paths, Set::empty(), movie_init());
    lemma_movie_scan_idempotent(paths, Set::empty());
    lemma_movie_fresh_counts_nothing_existing(paths);
    assert(Set::empty().union(m1.added_paths) =~= m1.added_paths);
}

/// Every classifiable video file that the snapshot does not hold is in the
/// episode-path set a TV scan leaves behind.
proof fn lemma_tv_episode_paths_complete(
    paths: Seq<Seq<char>>,
    existing: Set<Seq<char>>,
    st: TvScanModel,
)
    ensures
        forall|j: int|
            0 <= j < paths.len() && is_video_path(#[trigger] paths[j]) && !existing.contains(
                paths[j],
            ) && tv_info_spec(paths[j]) is Some ==> tv_run(
                paths,
                existing,
                st,
            ).episode_paths.contains(paths[j]),
        forall|p: Seq<char>|
            st.episode_paths.contains(p) ==> tv_run(paths, existing, st).episode_paths.contains(p),
    decreases paths.len(),
{
    if paths.len() > 0 {
        lemma_tv_episode_paths_complete(paths.drop_last(), existing, st);
        assert(forall|j: int| 0 <= j < paths.len() - 1 ==> paths.drop_last()[j] == paths[j]);
    }
}

/// A TV scan whose snapshot already holds every classifiable video path adds
/// nothing; its existing count grows where the first run counted an existing
/// or an added episode.
proof fn lemma_tv_rescan_general(paths: Seq<Seq<char>>, existing: Set<Seq<char>>, e2: Set<Seq<char>>)
    requires
        forall|j: int|
            0 <= j < paths.len() && is_video_path(#[trigger] paths[j]) ==> (e2.contains(paths[j])
                <==> (existing.contains(paths[j]) || tv_info_spec(paths[j]) is Some)),
    ensures
        ({
            let m1 = tv_run(paths, existing, tv_init());
            let m2 = tv_run(paths, e2, tv_init());
            &&& m2.added_shows == 0
            &&& m2.added_seasons == 0
            &&& m2.added_episodes == 0
            &&& m2.ops.len() == 0
            &&& m2.existing == m1.existing + m1.added_episodes
        }),
    decreases paths.len(),
{
    if paths.len() > 0 {
        lemma_tv_rescan_general(paths.drop_last(), existing, e2);
        assert(forall|j: int| 0 <= j < paths.len() - 1 ==> paths.drop_last()[j] == paths[j]);
    }
}

/// Running a TV scan again over an unchanged tree, with the snapshot
/// extended by the episode paths the first run inserted, adds no show, no
/// season and no episode: each episode the first run added or already saw is
/// counted as existing the second time.
pub proof fn lemma_tv_scan_idempotent(paths: Seq<Seq<char>>, existing: Set<Seq<char>>)
    ensures
        ({
            let m1 = tv_run(paths, existing, tv_init());
            let m2 = tv_run(paths, existing.union(m1.episode_paths), tv_init());
            &&& m2.added_shows == 0
            &&& m2.added_seasons == 0
            &&& m2.added_episodes == 0
            &&& m2.ops.len() == 0
            &&& m2.existing == m1.existing + m1.added_episodes
        }),
{
    let m1 = tv_run(paths, existing, tv_init());
    lemma_tv_episode_paths_complete(paths, existing, tv_init());
    lemma_tv_paths_only_added(paths, existing, tv_init());
    lemma_tv_rescan_general(paths, existing, existing.union(m1.episode_paths));
}

/// A TV scan with an empty snapshot counts nothing as existing.
proof fn lemma_tv_fresh_counts_nothing_existing(paths: Seq<Seq<char>>)
    ensures
        tv_run(paths, Set::empty(), tv_init()).existing == 0,
    decreases paths.len(),
{
    if paths.len() > 0 {
        lemma_tv_fresh_counts_nothing_existing(paths.drop_last());
    }
}

/// Scanning a fresh TV library twice over an unchanged tree: the second run
/// inserts no show, season or episode, and its existing count equals the
/// episodes the first run added.
pub proof fn lemma_tv_rescan_of_fresh_library(paths: Seq<Seq<char>>)
    ensures
        ({
            let m1 = tv_run(paths, Set::empty(), tv_init());
            let m2 = tv_run(paths, m1.episode_paths, tv_init());
            &&& m2.added_shows == 0
            &&& m2.added_seasons == 0
            &&& m2.added_episodes == 0
            &&& m2.ops.len() == 0
            &&& m2.existing == m1.added_episodes
        }),
{
    let m1 = tv_run(paths, Set::empty(), tv_init());
    lemma_tv_scan_idempotent(paths, Set::empty());
    lemma_tv_fresh_counts_nothing_existing(paths);
    assert(Set::empty().union(m1.episode_paths) =~= m1.episode_paths);
}

/// The episode-path set only ever holds classifiable new video paths (beyond
/// what it started with).
proof fn lemma_tv_paths_only_added(paths: Seq<Seq<char>>, existing: Set<Seq<char>>, st: TvScanModel)
    ensures
        forall|p: Seq<char>|
            tv_run(paths, existing, st).episode_paths.contains(p) ==> st.episode_paths.contains(p)
                || (is_video_path(p) && !existing.contains(p) && tv_info_spec(p) is Some),
    decreases paths.len(),
{
    if paths.len() > 0 {
        lemma_tv_paths_only_added(paths.drop_last(), existing, st);
    }
}

/// The generated title of a season row: `Season <n>`.
fn season_title(n: i32) -> (r: String)
    requires
        n >= 0,
    ensures
        r@ == "Season "@ + dec_str(n as nat),
{
    proof {
        reveal_strlit("Season ");
    }
    let mut s = String::new();
    s.append("Season ");
    push_dec_u64(&mut s, n as u64);
    proof {
        assert(Seq::<char>::empty() + "Season "@ =~= "Season "@);
    }
    s
}

} // verus!

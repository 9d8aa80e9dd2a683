//! The record shapes the library produces and consumes: rows of the media
//! store the scanner fills, and the request payloads of the surrounding API.
//! Timestamps, ratings and other columns only the storage layer owns are not
//! modeled here; the surrounding program adds them when it executes an
//! insert.
use vstd::prelude::*;

verus! {

/// A season row: one season of a show, keyed by the show's media id and the
/// season number.
#[derive(Clone, Debug, PartialEq)]
pub struct Season {
    pub id: String,
    pub media_id: String,
    pub season_number: i32,
    pub title: Option<String>,
    pub overview: Option<String>,
    pub poster_path: Option<String>,
}

/// An episode row: one video file of a show, with its on-disk path.
#[derive(Clone, Debug, PartialEq)]
pub struct Episode {
    pub id: String,
    pub media_id: String,
    pub season_id: String,
    pub episode_number: i32,
    pub title: String,
    pub overview: Option<String>,
    pub path: String,
    pub still_path: Option<String>,
    pub air_date: Option<String>,
    pub runtime: Option<i32>,
}

/// A person row: cast or crew.
#[derive(Clone, Debug, PartialEq)]
pub struct Person {
    pub id: String,
    pub name: String,
    pub profile_path: Option<String>,
    pub biography: Option<String>,
}

/// Links a person to a media row with a role.
#[derive(Clone, Debug, PartialEq)]
pub struct MediaPerson {
    pub media_id: String,
    pub person_id: String,
    pub role: String,
    pub character: Option<String>,
}

/// A genre row.
#[derive(Clone, Debug, PartialEq)]
pub struct Genre {
    pub id: String,
    pub name: String,
}

/// Links a genre to a media row.
#[derive(Clone, Debug, PartialEq)]
pub struct MediaGenre {
    pub media_id: String,
    pub genre_id: String,
}

/// A library: a named root folder scanned for one kind of media.
#[derive(Clone, Debug, PartialEq)]
pub struct Library {
    pub id: String,
    pub name: String,
    pub path: String,
    pub media_type: String,
    pub scan_automatically: bool,
}

/// Payload for creating a library.
#[derive(Clone, Debug, PartialEq)]
pub struct CreateLibraryDto {
    pub name: String,
    pub path: String,
    pub media_type: String,
    pub scan_automatically: Option<bool>,
}

/// Payload for updating watch progress.
#[derive(Clone, Debug, PartialEq)]
pub struct UpdateProgressDto {
    pub user_id: String,
    pub media_id: String,
    pub episode_id: Option<String>,
    pub position: i32,
    pub duration: i32,
    pub completed: Option<bool>,
}

/// A top-level media row as the scanner creates it: a movie file or a show
/// folder.
#[derive(Clone, Debug, PartialEq)]
pub struct MediaAdd {
    pub id: String,
    pub title: String,
    pub media_type: String,
    pub year: Option<i32>,
    pub path: String,
    pub is_directory: bool,
}

/// Validate a progress update before it is stored: the user and media must
/// be named, the position non-negative, the duration positive.  The checks
/// run in that order and the first failure wins.  Whether the entry counts
/// as completed is not decided here.
pub fn validate_progress(p: &UpdateProgressDto) -> (r: Result<(), crate::error::AppError>)
    ensures
        p.user_id@.len() == 0 ==> (r matches Err(crate::error::AppError::InvalidInput(m)) && m@
            == "user_id is required"@),
        p.user_id@.len() > 0 && p.media_id@.len() == 0 ==> (r matches Err(
            crate::error::AppError::InvalidInput(m),
        ) && m@ == "media_id is required"@),
        p.user_id@.len() > 0 && p.media_id@.len() > 0 && p.position < 0 ==> (r matches Err(
            crate::error::AppError::InvalidInput(m),
        ) && m@ == "position must be non-negative"@),
        p.user_id@.len() > 0 && p.media_id@.len() > 0 && p.position >= 0 && p.duration <= 0 ==> (
        r matches Err(crate::error::AppError::InvalidInput(m)) && m@
            == "duration must be positive"@),
        p.user_id@.len() > 0 && p.media_id@.len() > 0 && p.position >= 0 && p.duration > 0
            ==> r is Ok,
{
    if p.user_id.as_str().is_empty() {
        Err(crate::error::AppError::InvalidInput(String::from_str("user_id is required")))
    } else if p.media_id.as_str().is_empty() {
        Err(crate::error::AppError::InvalidInput(String::from_str("media_id is required")))
    } else if p.position < 0 {
        Err(crate::error::AppError::InvalidInput(String::from_str("position must be non-negative")))
    } else if p.duration <= 0 {
        Err(crate::error::AppError::InvalidInput(String::from_str("duration must be positive")))
    } else {
        Ok(())
    }
}

/// The media kinds a library can hold.
pub fn valid_media_type(s: &str) -> (r: bool)
    ensures
        r == (s@ == "movie"@ || s@ == "tvshow"@ || s@ == "music"@),
{
    crate::text::str_eq_str(s, "movie") || crate::text::str_eq_str(s, "tvshow")
        || crate::text::str_eq_str(s, "music")
}

} // verus!

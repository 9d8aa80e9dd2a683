use mediarust::error::{error_body, stat_failure, AppError, IoKind};
use mediarust::models::{valid_media_type, validate_progress, UpdateProgressDto};
use mediarust::{index, not_found};

fn progress(user: &str, media: &str, position: i32, duration: i32) -> UpdateProgressDto {
    UpdateProgressDto {
        user_id: String::from(user),
        media_id: String::from(media),
        episode_id: None,
        position,
        duration,
        completed: None,
    }
}

#[test]
fn progress_updates_are_validated_in_order() {
    let bad = |p: UpdateProgressDto, want: &str| match validate_progress(&p) {
        Err(AppError::InvalidInput(m)) => assert_eq!(m, want),
        other => panic!("expected invalid input, got {:?}", other),
    };
    bad(progress("", "m", 0, 10), "user_id is required");
    bad(progress("u", "", 0, 10), "media_id is required");
    bad(progress("u", "m", -1, 10), "position must be non-negative");
    bad(progress("u", "m", 0, 0), "duration must be positive");
    assert!(validate_progress(&progress("u", "m", 30, 60)).is_ok());
}

#[test]
fn statuses_follow_the_error_kind() {
    assert_eq!(AppError::Database(String::from("boom")).status(), 500);
    assert_eq!(AppError::NotFound(String::from("gone")).status(), 404);
    assert_eq!(AppError::InvalidInput(String::from("bad")).status(), 400);
    assert_eq!(AppError::Io(String::from("disk")).status(), 500);
    assert_eq!(AppError::ExternalApi(String::from("down")).status(), 502);
    assert_eq!(AppError::Auth(String::from("who")).status(), 401);
    assert_eq!(AppError::Server(String::from("oops")).status(), 500);
}

#[test]
fn body_wraps_the_message_as_json() {
    let e = AppError::NotFound(String::from("Episode with id 7 not found"));
    assert_eq!(
        e.body(),
        "{\"status\":\"error\",\"message\":\"Episode with id 7 not found\"}"
    );
}

#[test]
fn body_escapes_quotes_backslashes_and_control_characters() {
    assert_eq!(
        error_body("a \"quoted\" name"),
        "{\"status\":\"error\",\"message\":\"a \\\"quoted\\\" name\"}"
    );
    assert_eq!(
        error_body("back\\slash"),
        "{\"status\":\"error\",\"message\":\"back\\\\slash\"}"
    );
    assert_eq!(
        error_body("line\nbreak\ttab"),
        "{\"status\":\"error\",\"message\":\"line\\nbreak\\ttab\"}"
    );
    assert_eq!(
        error_body("bell\u{07}"),
        "{\"status\":\"error\",\"message\":\"bell\\u0007\"}"
    );
    assert_eq!(
        error_body("esc\u{1b}"),
        "{\"status\":\"error\",\"message\":\"esc\\u001b\"}"
    );
}

#[test]
fn stat_failure_messages_name_the_path() {
    let e = stat_failure(IoKind::NotFound, "/m/a.mkv", String::new());
    assert_eq!(e.message(), "File not found: /m/a.mkv");
    assert_eq!(e.status(), 500);
    let e = stat_failure(IoKind::PermissionDenied, "/m/a.mkv", String::new());
    assert_eq!(e.message(), "Access is denied to file: /m/a.mkv");
    let e = stat_failure(
        IoKind::Other,
        "/m/a.mkv",
        String::from("device offline"),
    );
    assert_eq!(e.message(), "device offline");
}

#[test]
fn root_and_catcher_bodies() {
    assert_eq!(index(), "MediaRust Server");
    assert_eq!(
        not_found(),
        "{\"status\":\"error\",\"reason\":\"Resource not found\"}"
    );
}

#[test]
fn media_types_are_validated() {
    assert!(valid_media_type("movie"));
    assert!(valid_media_type("tvshow"));
    assert!(valid_media_type("music"));
    assert!(!valid_media_type("podcast"));
    assert!(!valid_media_type("Movie"));
}

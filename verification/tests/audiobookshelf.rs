use nagare::audiobookshelf::{
    device_name, discovered_sessions, is_supported_audio_path, is_visible_local_session,
    local_session_supersedes_open, parse_session_details, abs_session, session_probably_paused, sessions_from_response,
    AbsDetailsError, LOCAL_SESSION_VISIBLE_AFTER_MS,
};
use nagare::json::{JsonNumber, JsonValue};

fn convert(v: &serde_json::Value) -> JsonValue {
    match v {
        serde_json::Value::Null => JsonValue::Null,
        serde_json::Value::Bool(b) => JsonValue::Bool(*b),
        serde_json::Value::Number(n) => JsonValue::Number(if let Some(u) = n.as_u64() {
            JsonNumber::PosInt(u)
        } else if let Some(i) = n.as_i64() {
            JsonNumber::NegInt(i)
        } else {
            JsonNumber::Float
        }),
        serde_json::Value::String(s) => JsonValue::String(s.clone()),
        serde_json::Value::Array(a) => JsonValue::Array(a.iter().map(convert).collect()),
        serde_json::Value::Object(o) => {
            JsonValue::Object(o.iter().map(|(k, v)| (k.clone(), convert(v))).collect())
        }
    }
}

fn json(text: &str) -> JsonValue {
    convert(&serde_json::from_str::<serde_json::Value>(text).unwrap())
}

fn local_session() -> JsonValue {
    json(
        r#"{
            "id": "local-session-1",
            "userId": "user-1",
            "libraryItemId": "book-1",
            "displayTitle": "Downloaded Japanese Audiobook",
            "mediaType": "book",
            "playMethod": 3,
            "currentTime": 75.0,
            "duration": 600.0,
            "updatedAt": 20000,
            "mediaMetadata": {"series": [{"name": "Japanese Series"}]},
            "deviceInfo": {"deviceId": "android-1", "clientName": "Abs Android"},
            "audioTracks": [{
                "index": 0, "startOffset": 0.0, "duration": 600.0,
                "title": "Japanese Audiobook.m4b", "language": "jpn",
                "metadata": {"path": "/downloads/Japanese Audiobook.m4b"}
            }]
        }"#,
    )
}

#[test]
fn extracts_current_and_legacy_open_session_arrays() {
    let sessions = vec![json(r#"{"id": "session-1"}"#)];
    assert_eq!(
        sessions_from_response(&json(r#"{"sessions": [{"id": "session-1"}]}"#)),
        Some(&sessions)
    );
    assert_eq!(
        sessions_from_response(&json(r#"{"openSessions": [{"id": "session-1"}]}"#)),
        Some(&sessions)
    );
}

#[test]
fn newer_downloaded_session_supersedes_stale_open_session() {
    let local = local_session();
    let open = json(
        r#"{"id": "open-session-1", "userId": "user-1", "updatedAt": 10000, "deviceInfo": {"deviceId": "android-1"}}"#,
    );
    assert!(local_session_supersedes_open(&local, &open, 21_000));

    let newer_open = json(
        r#"{"id": "open-session-2", "userId": "user-1", "updatedAt": 30000, "deviceInfo": {"deviceId": "android-1"}}"#,
    );
    assert!(!local_session_supersedes_open(&local, &newer_open, 31_000));
}

#[test]
fn downloaded_session_visibility_expires() {
    let local = local_session();
    assert!(is_visible_local_session(&local, 21_000));
    assert!(!is_visible_local_session(&local, 20_000 + LOCAL_SESSION_VISIBLE_AFTER_MS + 1));
}

#[test]
fn open_sessions_of_other_devices_are_kept_until_stale() {
    let local = local_session();
    let other_device = json(r#"{"id": "o", "userId": "user-1", "updatedAt": 10000, "deviceInfo": {"deviceId": "web"}}"#);
    // Another device's session is replaced only once it is stale (25 s).
    assert!(!local_session_supersedes_open(&local, &other_device, 35_000));
    assert!(local_session_supersedes_open(&local, &other_device, 35_001));
    let other_user = json(r#"{"id": "u", "userId": "user-2", "updatedAt": 1}"#);
    assert!(!local_session_supersedes_open(&local, &other_user, 1_000_000));
    assert!(sessions_from_response(&json(r#"{"sessions": {}, "openSessions": []}"#)).is_none());
}

#[test]
fn discovered_sessions_put_visible_downloads_first() {
    let locals = vec![local_session()];
    let opens = vec![
        json(r#"{"id": "stale", "userId": "user-1", "updatedAt": 10000, "deviceInfo": {"deviceId": "android-1"}}"#),
        json(r#"{"id": "tv", "userId": "user-2", "updatedAt": 19000}"#),
    ];
    let shown = discovered_sessions(&locals, &opens, 21_000);
    assert_eq!(shown.len(), 2);
    assert_eq!(shown[0], &locals[0]);
    assert_eq!(shown[1], &opens[1]);
    // Once the download is old it is no longer shown, but still replaces the stale row.
    let later = discovered_sessions(&locals, &opens, 20_000 + LOCAL_SESSION_VISIBLE_AFTER_MS + 1);
    assert_eq!(later.len(), 1);
    assert_eq!(later[0], &opens[1]);
}

#[test]
fn device_names_skip_blank_fields() {
    assert_eq!(device_name(&local_session()), "Abs Android");
    assert_eq!(device_name(&json(r#"{"deviceInfo": {"clientName": "  ", "model": "Pixel"}}"#)), "Pixel");
    assert_eq!(device_name(&json("{}")), "AudioBookShelf Player");
}

fn expanded_session() -> JsonValue {
    json(
        r#"{
            "libraryItemId": "book-1",
            "displayTitle": "Japanese Audiobook",
            "mediaType": "book",
            "audioTracks": [{
                "index": 0, "startOffset": 0.0, "duration": 600.0,
                "title": "Japanese Audiobook.m4b",
                "contentUrl": "/api/items/book-1/file/123",
                "codec": "aac",
                "metadata": {
                    "filename": "Japanese Audiobook.m4b",
                    "path": "/audiobooks/Japanese Audiobook/Japanese Audiobook.m4b"
                }
            }],
            "libraryItem": {
                "path": "/audiobooks/Japanese Audiobook",
                "media": {
                    "metadata": {"title": "Japanese Audiobook", "seriesName": "Japanese Series"},
                    "audioFiles": [{"index": 0, "language": "jpn"}]
                }
            }
        }"#,
    )
}

#[test]
fn parses_supported_single_file_track_and_language() {
    let details = parse_session_details(&expanded_session()).unwrap();
    assert_eq!(details.library_item_id, "book-1");
    assert_eq!(details.series_name.as_deref(), Some("Japanese Series"));
    assert_eq!(details.audio_tracks.len(), 1);
    assert_eq!(details.audio_tracks[0].language.as_deref(), Some("jpn"));
    assert!(details.audio_tracks[0].path.ends_with(".m4b"));
}

#[test]
fn parses_downloaded_session_without_expanded_library_item() {
    let details = parse_session_details(&local_session()).unwrap();
    assert_eq!(details.display_title, "Downloaded Japanese Audiobook");
    assert_eq!(details.series_name.as_deref(), Some("Japanese Series"));
    assert_eq!(details.audio_tracks.len(), 1);
    assert_eq!(details.audio_tracks[0].language.as_deref(), Some("jpn"));
}

#[test]
fn session_details_need_a_library_item() {
    assert_eq!(
        parse_session_details(&json(r#"{"displayTitle": "x"}"#)).err(),
        Some(AbsDetailsError::MissingLibraryItemId)
    );
}

#[test]
fn session_details_fall_back_and_skip_unsupported_tracks() {
    let details = parse_session_details(&json(
        r#"{
            "libraryItemId": "book-2",
            "mediaMetadata": {"seriesName": "   "},
            "audioTracks": [
                {"metadata": {"path": "/a/one.MP3", "filename": "one.MP3"}, "language": " ja "},
                {"index": 7, "metadata": {"path": "/a/cover.jpg"}},
                {"metadata": {"filename": "no-path.mp3"}},
                {"index": 4, "title": "Four", "metadata": {"path": "/a/.m4b"}},
                {"index": 5, "title": "Five", "metadata": {"path": "/a/five.m4b"}}
            ],
            "libraryItem": {"media": {"audioFiles": [
                {"index": 5, "language": "eng"}, {"index": 5, "language": "jpn"}, {"index": 5, "language": " "}
            ]}}
        }"#,
    ))
    .unwrap();
    assert_eq!(details.display_title, "Audiobook");
    assert_eq!(details.media_type, "book");
    assert_eq!(details.series_name, None);
    let tracks: Vec<(u64, u32, Option<&str>, Option<&str>)> = details
        .audio_tracks
        .iter()
        .map(|t| (t.ordinal, t.index, t.title.as_deref(), t.language.as_deref()))
        .collect();
    assert_eq!(tracks, vec![(0, 0, Some("one.MP3"), Some("ja")), (4, 5, Some("Five"), Some("jpn"))]);
}

#[test]
fn only_mp3_and_m4b_files_are_supported() {
    assert!(is_supported_audio_path("/books/a.mp3"));
    assert!(is_supported_audio_path("/books/b.M4B"));
    assert!(!is_supported_audio_path("/books/c.flac"));
    assert!(!is_supported_audio_path("/books/.mp3"));
    assert!(!is_supported_audio_path("mp3"));
}

#[test]
fn sessions_without_recent_updates_count_as_paused() {
    let recent = json(r#"{"currentTime": 100.0, "duration": 500.0, "updatedAt": 1000}"#);
    assert!(!session_probably_paused(&recent, 6_000));
    assert!(session_probably_paused(&recent, 31_000));
    assert!(session_probably_paused(&json(r#"{"currentTime": 1.0}"#), 0));
}

#[test]
fn sessions_show_the_playing_track() {
    let mut value = expanded_session();
    if let JsonValue::Object(members) = &mut value {
        members.push(("id".to_string(), JsonValue::String("s-1".to_string())));
        members.push(("userId".to_string(), JsonValue::String("u-1".to_string())));
        members.push(("updatedAt".to_string(), JsonValue::Number(JsonNumber::PosInt(20_000))));
    }
    let details = parse_session_details(&value).unwrap();
    let (session, info) = abs_session(&value, &details, 0, true, 750_000_000, Some(6_000_000_000)).unwrap();
    assert_eq!(session.id, "s-1");
    assert_eq!(session.client, "AudioBookShelf");
    assert_eq!(session.device_name, "AudioBookShelf Player");
    assert_eq!(session.user_id.as_deref(), Some("u-1"));
    assert_eq!(session.last_activity_at_ms, Some(20_000));
    assert!(session.play_state.is_paused && !session.supports_remote_control);
    assert_eq!(session.play_state.audio_stream_index, Some(0));
    let np = session.now_playing.unwrap();
    assert_eq!(np.item_id, "book-1");
    assert_eq!(np.name, "Japanese Audiobook");
    assert_eq!(np.media_source_id.as_deref(), Some("/api/items/book-1/file/123"));
    assert_eq!(np.media_streams[0].language.as_deref(), Some("jpn"));
    assert_eq!(info.media_sources[0].path.as_deref(), Some("/audiobooks/Japanese Audiobook/Japanese Audiobook.m4b"));

    let multi = json(
        r#"{"id": "s-2", "libraryItemId": "book-2", "audioTracks": [
            {"index": 1, "title": "One", "metadata": {"path": "/b/one.mp3"}},
            {"index": 5, "title": "Five", "metadata": {"path": "/b/five.mp3"}}
        ]}"#,
    );
    let details = parse_session_details(&multi).unwrap();
    let (session, info) = abs_session(&multi, &details, 1, false, 0, None).unwrap();
    let np = session.now_playing.unwrap();
    assert_eq!(np.item_id, "book-2:abs-track:5");
    assert_eq!(np.name, "Audiobook — Five");
    assert_eq!(info.media_sources[0].id, "abs-track-5");
    assert!(abs_session(&json(r#"{"libraryItemId": "b"}"#), &details, 0, false, 0, None).is_none());
}

use nagare::config::{Config, JellyfinConfig, MediaServerKind};
use nagare::history::{
    audio_languages_of, history_save_due, record_position, tadoku_candidate_positions, tadoku_export_due,
    CandidateFilter, ExportRunStatus, HistoryEntry, HistoryRow,
};
use nagare::media_server::{MediaStream, NowPlaying, PlayState, Session, StreamType};
use nagare::playback_sessions::{collect_playback_sessions, reportable_sessions, PlaybackSessions, ServerReport};
use nagare::session::{native_subtitle_candidates, sidecar_subtitle_candidate};

fn entry(position_ms: i64, last_seen_ms: i64) -> HistoryEntry {
    HistoryEntry {
        history_id: "plex|1".to_string(),
        server_kind: MediaServerKind::Plex,
        item_id: "1".to_string(),
        title: "Episode 1".to_string(),
        series_name: Some("Frieren".to_string()),
        media_source_id: "m".to_string(),
        file_path: None,
        duration_ms: Some(100_000),
        subtitle_count: 3,
        audio_languages: vec!["jpn".to_string()],
        last_position_ms: position_ms,
        last_seen_ms,
    }
}

#[test]
fn position_reports_keep_the_latest_position() {
    let mut e = entry(1_000, 10);
    record_position(&mut e, 2_000, true, 20);
    assert_eq!((e.last_position_ms, e.last_seen_ms), (2_000, 20));
    record_position(&mut e, 2_000, false, 30);
    assert_eq!((e.last_position_ms, e.last_seen_ms), (2_000, 20));
    record_position(&mut e, 2_500, false, 40);
    assert_eq!((e.last_position_ms, e.last_seen_ms), (2_500, 40));
    assert_eq!(e.title, "Episode 1");
}

#[test]
fn history_writes_are_throttled_unless_forced() {
    assert!(history_save_due(true, 10_000, 10_001));
    assert!(!history_save_due(false, 10_000, 14_999));
    assert!(history_save_due(false, 10_000, 15_000));
    assert!(!history_save_due(false, 10_000, 9_000));
}

fn stream(kind: StreamType, language: Option<&str>) -> MediaStream {
    MediaStream {
        index: 0,
        stream_type: kind,
        codec: None,
        language: language.map(str::to_string),
        display_title: None,
        is_default: false,
        is_external: false,
        is_text_subtitle_stream: false,
        title: None,
    }
}

#[test]
fn history_keeps_the_audio_languages() {
    let streams = vec![
        stream(StreamType::Video, Some("und")),
        stream(StreamType::Audio, Some("jpn")),
        stream(StreamType::Audio, None),
        stream(StreamType::Subtitle, Some("eng")),
        stream(StreamType::Audio, Some("eng")),
    ];
    assert_eq!(audio_languages_of(&streams), vec!["jpn".to_string(), "eng".to_string()]);
}

fn row(id: &str, series: &str, title: &str, position_ms: i64) -> HistoryRow {
    HistoryRow {
        history_id: id.to_string(),
        series_name: Some(series.to_string()),
        title: title.to_string(),
        last_seen_ms: 1_000,
        duration_ms: Some(100_000),
        last_position_ms: position_ms,
    }
}

fn filter(exported: &[&str]) -> CandidateFilter {
    CandidateFilter {
        exported_ids: exported.iter().map(|s| s.to_string()).collect(),
        declined_ids: Vec::new(),
        pending_series: Vec::new(),
        cutoff_ms: 0,
    }
}

#[test]
fn completed_episodes_are_offered_once_and_never_again() {
    let rows = vec![
        row("plex|1", "Frieren", "Episode 1", 90_001),
        row("jellyfin|copy-of-1", "Frieren", "Episode 1", 90_001),
        row("plex|2", "Frieren", "Episode 2", 90_000),
        row("plex|3", "Frieren", "Episode 3", 50_000),
    ];
    assert_eq!(tadoku_candidate_positions(&rows, &filter(&[])), vec![0, 2]);
    assert_eq!(tadoku_candidate_positions(&rows, &filter(&["plex|1", "plex|2"])), Vec::<usize>::new());
}

#[test]
fn candidates_respect_declines_cutoff_and_pending_batches() {
    let mut rows = vec![
        row("a", "Show", "One", 90_000),
        row("b", "", "Movie", 90_000),
        row("c", "Other", "Two", 90_000),
        row("d", "Show", "Old", 90_000),
    ];
    rows[3].last_seen_ms = -5;
    rows[1].series_name = Some(String::new());
    let mut f = filter(&[]);
    f.declined_ids = vec!["a".to_string()];
    f.pending_series = vec!["Other".to_string()];
    assert_eq!(tadoku_candidate_positions(&rows, &f), vec![1]);
    let mut none = row("e", "Show", "Three", 90_000);
    none.duration_ms = None;
    assert_eq!(tadoku_candidate_positions(&vec![none], &filter(&[])), Vec::<usize>::new());
}

#[test]
fn exported_copies_are_matched_ignoring_ascii_case() {
    let rows = vec![row("x", "FRIEREN", "episode 1", 90_000), row("y", "Frieren", "Episode 1", 90_000)];
    assert_eq!(tadoku_candidate_positions(&rows, &filter(&["x"])), Vec::<usize>::new());
}

#[test]
fn native_track_candidates_skip_the_target_track() {
    let candidates = vec![
        sidecar_subtitle_candidate("Show", "/m/Show.en.srt").unwrap(),
        sidecar_subtitle_candidate("Show", "/m/Show.ja.srt").unwrap(),
        sidecar_subtitle_candidate("Show", "/m/Show.eng.ass").unwrap(),
    ];
    let target = candidates[0].id.clone();
    assert_eq!(native_subtitle_candidates(&candidates, None, "eng"), vec![0, 2]);
    assert_eq!(native_subtitle_candidates(&candidates, Some(target.as_str()), "eng"), vec![2]);
    assert_eq!(native_subtitle_candidates(&candidates, None, "fre"), Vec::<usize>::new());
}

fn session(id: &str, user: Option<&str>, name: &str, last_activity: Option<i64>) -> Session {
    Session {
        id: id.to_string(),
        playback_session_id: None,
        client: "Web".to_string(),
        device_name: id.to_string(),
        user_name: user.map(str::to_string),
        user_id: user.map(str::to_string),
        last_activity_at_ms: last_activity,
        now_playing: Some(NowPlaying {
            item_id: format!("item-{id}"),
            name: name.to_string(),
            series_name: Some("Series".to_string()),
            season_index: Some(1),
            episode_index: Some(1),
            media_type: "Episode".to_string(),
            run_time_ticks: None,
            media_streams: Vec::new(),
            media_source_id: None,
            path: None,
        }),
        play_state: PlayState {
            can_seek: true,
            is_paused: false,
            position_ticks: Some(0),
            audio_stream_index: None,
            subtitle_stream_index: None,
        },
        supports_remote_control: true,
    }
}

fn config_with_jellyfin_users(users: &[&str]) -> Config {
    let mut c = Config::default();
    c.jellyfin = Some(JellyfinConfig {
        enabled: true,
        url: "http://jf".to_string(),
        api_key: "k".to_string(),
        users: users.iter().map(|u| u.to_string()).collect(),
    });
    c
}

#[test]
fn polls_take_in_followed_visible_non_theme_sessions() {
    let config = config_with_jellyfin_users(&["alice"]);
    let sessions = vec![
        session("a", Some("alice"), "Episode", Some(1_000_000)),
        session("b", Some("bob"), "Episode", Some(1_000_000)),
        session("c", Some("alice"), "Theme", Some(1_000_000)),
        session("d", Some("alice"), "Episode", Some(1)),
    ];
    let taken = reportable_sessions(&config, MediaServerKind::Jellyfin, 7, sessions, 1_000_000);
    assert_eq!(taken.len(), 1);
    assert_eq!(taken[0].session.id, "a");
    assert_eq!(taken[0].server_id, 7);
    assert!(taken[0].reported);

    let mut observed = PlaybackSessions::new();
    let reports = vec![ServerReport {
        kind: MediaServerKind::Jellyfin,
        server_id: 1,
        sessions: vec![session("a", Some("alice"), "Episode", None), session("b", Some("bob"), "Episode", None)],
    }];
    let listed = collect_playback_sessions(&mut observed, &config, reports, 5_000);
    let ids: Vec<&str> = listed.iter().map(|s| s.session.id.as_str()).collect();
    assert_eq!(ids, vec!["a"]);
}

#[test]
fn daily_exports_retry_after_half_an_hour_until_completed() {
    assert!(tadoku_export_due(None, 0));
    assert!(!tadoku_export_due(Some((ExportRunStatus::Completed, 0)), 10_000_000));
    assert!(!tadoku_export_due(Some((ExportRunStatus::Failed, 0)), 1_799_999));
    assert!(tadoku_export_due(Some((ExportRunStatus::Failed, 0)), 1_800_000));
    assert!(tadoku_export_due(Some((ExportRunStatus::Running, 100)), 1_800_100));
}

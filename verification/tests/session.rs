use nagare::api::{play_pause_command, seek_target};
use nagare::playback_sessions::PlaybackSessions;
use nagare::config::MediaServerKind;
use nagare::media_server::{MediaStream, NowPlaying, PlayState, Session, StreamType};
use nagare::session::{
    compare_auto_session_priority, is_ignored_episode, language_matches_target,
    resolve_audio_track, resolve_subtitle_candidate, scoped_history_id, scoped_playback_id,
    scoped_session_id, session_is_visible, sidecar_subtitle_candidate, AudioTrack,
    AudioTrackResolution, SubtitleCandidateSource, SubtitleSelectionMode,
    sidecar_subtitle_candidates, subtitle_filename_confidence, fuzzy_sidecar_subtitle_candidate,
    choose_active_session, session_summaries, sort_by_auto_priority, active_item_update,
    keeps_observed_session, remote_control_allowed, ServerSession, SHARED_SESSION_RETENTION_MS,
    choose_subtitle, plex_playing_event, NowPlayingState, SessionState, SessionSummary,
    SubtitleChoiceError, poll_interval_ms, fallback_sidecar, subtitle_candidate_from_stream,
    AUDIOBOOKSHELF_PAUSED_SESSION_VISIBLE_AFTER_MS, PAUSED_SESSION_VISIBLE_AFTER_MS,
    PLAYING_SESSION_STALE_AFTER_MS,
};

fn now_playing(name: &str, media_type: &str, series_name: Option<&str>) -> NowPlaying {
    NowPlaying {
        item_id: "item-1".to_string(),
        name: name.to_string(),
        series_name: series_name.map(str::to_string),
        season_index: Some(1),
        episode_index: series_name.map(|_| 1),
        media_type: media_type.to_string(),
        run_time_ticks: None,
        media_streams: Vec::new(),
        media_source_id: None,
        path: None,
    }
}

fn playback_session(
    id: &str,
    is_paused: bool,
    language: &str,
    last_activity_at_ms: Option<i64>,
) -> Session {
    let mut item = now_playing(id, "Episode", Some("Series"));
    item.media_streams.push(MediaStream {
        index: 0,
        stream_type: StreamType::Audio,
        codec: None,
        language: Some(language.to_string()),
        display_title: None,
        is_default: true,
        is_external: false,
        is_text_subtitle_stream: false,
        title: None,
    });
    Session {
        id: id.to_string(),
        playback_session_id: None,
        client: "Test".to_string(),
        device_name: id.to_string(),
        user_name: None,
        user_id: None,
        last_activity_at_ms,
        now_playing: Some(item),
        play_state: PlayState {
            can_seek: true,
            is_paused,
            position_ticks: Some(0),
            audio_stream_index: Some(0),
            subtitle_stream_index: None,
        },
        supports_remote_control: true,
    }
}

#[test]
fn auto_selection_prioritizes_playing_over_paused_target_session() {
    let mut sessions = [
        playback_session("stale-abs", true, "jpn", Some(99_000)),
        playback_session("active-jellyfin", false, "eng", Some(90_000)),
    ];
    sessions.sort_by(|left, right| compare_auto_session_priority(left, right, "jpn"));
    assert_eq!(sessions[0].id, "active-jellyfin");
}

#[test]
fn auto_selection_uses_language_then_freshness_within_same_play_state() {
    let mut sessions = [
        playback_session("older-target", false, "jpn", Some(80_000)),
        playback_session("newer-other", false, "eng", Some(99_000)),
        playback_session("newer-target", false, "jpn", Some(90_000)),
    ];
    sessions.sort_by(|left, right| compare_auto_session_priority(left, right, "jpn"));
    assert_eq!(sessions[0].id, "newer-target");
    assert_eq!(sessions[1].id, "older-target");
    assert_eq!(sessions[2].id, "newer-other");
}

#[test]
fn timestamped_sessions_expire_according_to_play_state() {
    let now_ms = 1_000_000;
    let paused_lifetime_ms = PAUSED_SESSION_VISIBLE_AFTER_MS as i64;
    let playing_lifetime_ms = PLAYING_SESSION_STALE_AFTER_MS as i64;

    assert!(session_is_visible(
        MediaServerKind::Jellyfin,
        &playback_session("recent-pause", true, "jpn", Some(now_ms - paused_lifetime_ms)),
        now_ms
    ));
    assert!(!session_is_visible(
        MediaServerKind::Jellyfin,
        &playback_session("old-pause", true, "jpn", Some(now_ms - paused_lifetime_ms - 1)),
        now_ms
    ));
    assert!(!session_is_visible(
        MediaServerKind::Jellyfin,
        &playback_session("stalled-player", false, "jpn", Some(now_ms - playing_lifetime_ms - 1)),
        now_ms
    ));
    assert!(session_is_visible(
        MediaServerKind::Jellyfin,
        &playback_session("no-clock", true, "jpn", None),
        now_ms
    ));
    assert!(session_is_visible(
        MediaServerKind::Audiobookshelf,
        &playback_session(
            "audiobookshelf-local",
            true,
            "jpn",
            Some(now_ms - AUDIOBOOKSHELF_PAUSED_SESSION_VISIBLE_AFTER_MS as i64),
        ),
        now_ms,
    ));
}

#[test]
fn ignores_theme_episode_regardless_of_case() {
    let episode = now_playing(" Theme ", "Video", Some("Example Series"));
    assert!(is_ignored_episode(&episode));
}

#[test]
fn does_not_ignore_other_episodes_or_theme_movies() {
    let other_episode = now_playing("Pilot", "Episode", Some("Example Series"));
    let theme_movie = now_playing("Theme", "Movie", None);
    assert!(!is_ignored_episode(&other_episode));
    assert!(!is_ignored_episode(&theme_movie));
}

#[test]
fn abs_prefers_exact_sidecar_before_language_tagged_alternative() {
    let media_stem = "Japanese Audiobook";
    let language_candidate =
        sidecar_subtitle_candidate(media_stem, "/audiobooks/Japanese Audiobook.ja.srt").unwrap();
    let exact_candidate =
        sidecar_subtitle_candidate(media_stem, "/audiobooks/Japanese Audiobook.srt").unwrap();

    let (selected, mode) = resolve_subtitle_candidate(
        &[language_candidate, exact_candidate.clone()],
        "jpn",
        None,
        MediaServerKind::Audiobookshelf,
    );

    assert_eq!(mode, SubtitleSelectionMode::Auto);
    assert_eq!(selected.unwrap().id, exact_candidate.id);
    assert_eq!(exact_candidate.source, SubtitleCandidateSource::Sidecar);
}

#[test]
fn manual_abs_subtitle_choice_still_wins_over_exact_match() {
    let media_stem = "Japanese Audiobook";
    let manual_candidate =
        sidecar_subtitle_candidate(media_stem, "/audiobooks/Japanese Audiobook.ja.srt").unwrap();
    let exact_candidate =
        sidecar_subtitle_candidate(media_stem, "/audiobooks/Japanese Audiobook.srt").unwrap();

    let (selected, mode) = resolve_subtitle_candidate(
        &[exact_candidate, manual_candidate.clone()],
        "jpn",
        Some(&manual_candidate.id),
        MediaServerKind::Audiobookshelf,
    );

    assert_eq!(mode, SubtitleSelectionMode::Manual);
    assert_eq!(selected.unwrap().id, manual_candidate.id);
}

#[test]
fn sidecar_candidates_describe_the_file() {
    let c = sidecar_subtitle_candidate("Show 01", "/media/Show 01.forced.JA.Ass").unwrap();
    assert_eq!(c.id, "sidecar:Show 01.forced.JA.Ass");
    assert_eq!(c.label, "Show 01.forced.JA.Ass (ASS Sidecar)");
    assert_eq!(c.codec.as_deref(), Some("ass"));
    assert_eq!(c.language.as_deref(), Some("ja"));
    assert!(!c.is_exact_file_match);
    assert_eq!(c.local_path.as_deref(), Some("/media/Show 01.forced.JA.Ass"));
    assert!(sidecar_subtitle_candidate("Show 01", "/media/Show 01.txt").is_none());
    assert!(sidecar_subtitle_candidate("Show 01", "/media/Show 012.srt").is_none());
    assert!(sidecar_subtitle_candidate("Show 01", "/media/Show 01.srt/").unwrap().is_exact_file_match);
}

#[test]
fn language_tags_match_through_aliases_and_regions() {
    assert!(language_matches_target(Some("ja"), "jpn"));
    assert!(language_matches_target(Some(" JA_jp "), "japanese"));
    assert!(language_matches_target(Some("pt-BR"), "por"));
    assert!(!language_matches_target(Some("eng"), "jpn"));
    assert!(!language_matches_target(None, "jpn"));
    assert!(!language_matches_target(Some("--"), "jpn"));
}

fn audio(index: u32, language: Option<&str>) -> AudioTrack {
    AudioTrack {
        index,
        codec: None,
        language: language.map(str::to_string),
        display_title: None,
        title: None,
        is_default: false,
        channels: None,
    }
}

#[test]
fn audio_track_resolution_cases() {
    let tracks = [audio(1, Some("eng")), audio(2, Some("jpn"))];
    assert_eq!(resolve_audio_track(&tracks, "jpn", Some(1)), (Some(1), AudioTrackResolution::Manual));
    assert_eq!(resolve_audio_track(&tracks, "jpn", Some(9)), (Some(2), AudioTrackResolution::AutoLanguage));
    assert_eq!(resolve_audio_track(&tracks, "deu", None), (None, AudioTrackResolution::NeedsSelection));
    assert_eq!(resolve_audio_track(&tracks[..1], "deu", None), (Some(1), AudioTrackResolution::Single));
    assert_eq!(resolve_audio_track(&[], "deu", None), (None, AudioTrackResolution::Single));
}

#[test]
fn scoped_ids_join_kind_and_ids() {
    assert_eq!(scoped_history_id(MediaServerKind::Plex, "42"), "plex|42");
    assert_eq!(scoped_session_id(MediaServerKind::Emby, "s"), "emby|s");
    assert_eq!(scoped_playback_id(MediaServerKind::Jellyfin, "s", "i", None), "jellyfin|s|i");
    assert_eq!(
        scoped_playback_id(MediaServerKind::Audiobookshelf, "s", "i", Some("p")),
        "audiobookshelf|s|i|p"
    );
}

fn paths(names: &[&str]) -> Vec<String> {
    let mut v: Vec<String> = names.iter().map(|n| format!("/media/books/{n}")).collect();
    v.sort();
    v
}

#[test]
fn fuzzy_sidecars_are_ranked_by_filename_confidence() {
    let listing = paths(&[
        "Book Chapter 02.mp3",
        "Book Chapter 19.srt",
        "Book Chapter 02 Japanese.srt",
        "Book Chapter 02 Japanese.ass",
    ]);
    let candidates = sidecar_subtitle_candidates("Book Chapter 02", &listing);

    assert_eq!(candidates.len(), 2);
    assert_eq!(candidates[0].id, "sidecar:Book Chapter 02 Japanese.srt");
    assert!(candidates[0].match_confidence > candidates[1].match_confidence);
    assert!(candidates[0].label.contains("% match"));
}

#[test]
fn exact_sidecars_suppress_directory_wide_fuzzy_fallback() {
    let listing = paths(&["Book Chapter 02.mp3", "Book Chapter 02.ja.srt", "Another Book.srt"]);
    let candidates = sidecar_subtitle_candidates("Book Chapter 02", &listing);

    assert_eq!(candidates.len(), 1);
    assert_eq!(candidates[0].id, "sidecar:Book Chapter 02.ja.srt");
    assert_eq!(candidates[0].match_confidence, None);
}

#[test]
fn filename_confidence_values() {
    assert_eq!(subtitle_filename_confidence("Book Chapter 02", "Book Chapter 02"), 100);
    assert_eq!(subtitle_filename_confidence("Book Chapter 02", "book-chapter_02"), 100);
    // "bookchapter02" against "bookchapter19": distance 2 of 13, halved for the other number.
    assert_eq!(subtitle_filename_confidence("Book Chapter 02", "Book Chapter 19"), 42);
    // distance 8 of 21, same final number.
    assert_eq!(subtitle_filename_confidence("Book Chapter 02", "Book Chapter 02 Japanese"), 62);
    // leading zeros do not make numbers differ.
    assert_eq!(subtitle_filename_confidence("Ep 2", "Ep 02"), 75);
    assert_eq!(subtitle_filename_confidence("", "!!"), 0);
}

#[test]
fn fuzzy_candidate_fields() {
    let c = fuzzy_sidecar_subtitle_candidate("Book Chapter 02", "/media/books/Book Chapter 02 Japanese.srt")
        .unwrap();
    assert_eq!(c.id, "sidecar:Book Chapter 02 Japanese.srt");
    assert_eq!(c.label, "Book Chapter 02 Japanese.srt (SRT Sidecar · 62% match)");
    assert_eq!(c.match_confidence, Some(62));
    assert_eq!(c.codec.as_deref(), Some("srt"));
    assert_eq!(c.local_path.as_deref(), Some("/media/books/Book Chapter 02 Japanese.srt"));
    assert!(c.is_external && !c.is_exact_file_match);
    assert!(fuzzy_sidecar_subtitle_candidate("Book", "/media/books/Book.ass").is_none());
    assert!(fuzzy_sidecar_subtitle_candidate("Book", "/media/books/Book.mp3").is_none());
}

#[test]
fn fuzzy_ties_are_ordered_by_lowercased_label() {
    let listing = paths(&["b.srt", "A.srt"]);
    let candidates = sidecar_subtitle_candidates("zz", &listing);
    assert_eq!(candidates.len(), 2);
    assert_eq!(candidates[0].match_confidence, candidates[1].match_confidence);
    assert_eq!(candidates[0].id, "sidecar:A.srt");
    assert_eq!(candidates[1].id, "sidecar:b.srt");
    assert!(sidecar_subtitle_candidates("zz", &[]).is_empty());
}

fn server_session(kind: MediaServerKind, id: &str, is_paused: bool, reported: bool) -> ServerSession {
    ServerSession {
        kind,
        server_id: 1,
        session: playback_session(id, is_paused, "jpn", None),
        reported,
        newly_observed: false,
    }
}

#[test]
fn server_session_keys_and_connections() {
    let a = server_session(MediaServerKind::Jellyfin, "s1", false, true);
    assert_eq!(a.id(), "jellyfin|s1|item-1");
    let mut b = server_session(MediaServerKind::Jellyfin, "s1", true, true);
    assert!(a.same_connection(&b));
    b.server_id = 2;
    assert!(!a.same_connection(&b));
}

#[test]
fn active_session_choice() {
    // In automatic priority order: the playing session before the paused one.
    let sessions = vec![
        server_session(MediaServerKind::Jellyfin, "playing", false, true),
        server_session(MediaServerKind::Jellyfin, "paused", true, true),
    ];
    let selected = sessions[1].id();
    assert_eq!(choose_active_session(&sessions, Some(selected.as_str()), None), Some(1));
    assert_eq!(choose_active_session(&sessions, Some("missing"), None), None);
    // A paused previous session yields to one that plays.
    let previous = sessions[1].id();
    assert_eq!(choose_active_session(&sessions, None, Some(previous.as_str())), Some(0));
    assert_eq!(choose_active_session(&sessions, None, None), Some(0));
    assert_eq!(choose_active_session(&[], None, None), None);

    // With nothing playing, a paused previous session stays active.
    let paused = vec![
        server_session(MediaServerKind::Jellyfin, "first", true, true),
        server_session(MediaServerKind::Jellyfin, "second", true, true),
    ];
    let previous = paused[1].id();
    assert_eq!(choose_active_session(&paused, None, Some(previous.as_str())), Some(1));
}

#[test]
fn sessions_are_listed_by_kind_and_device() {
    let sessions = vec![
        server_session(MediaServerKind::Plex, "z", false, true),
        server_session(MediaServerKind::Jellyfin, "b", false, true),
        server_session(MediaServerKind::Jellyfin, "a", false, true),
    ];
    let listed = session_summaries(&sessions, "jpn");
    assert_eq!(listed.len(), 3);
    assert_eq!(listed[0].remote_session_id, "a");
    assert_eq!(listed[1].remote_session_id, "b");
    assert_eq!(listed[2].remote_session_id, "z");
    assert_eq!(listed[0].id, "jellyfin|a|item-1");
    assert!(listed[0].is_target_language);
    assert!(!session_summaries(&sessions, "eng")[0].is_target_language);
}

#[test]
fn auto_priority_sort_puts_playing_first() {
    let sessions = vec![
        server_session(MediaServerKind::Jellyfin, "paused", true, true),
        server_session(MediaServerKind::Jellyfin, "playing", false, true),
    ];
    let sorted = sort_by_auto_priority(sessions, "ja");
    assert_eq!(sorted[0].session.id, "playing");
    assert_eq!(sorted[1].session.id, "paused");
}

#[test]
fn observed_sessions_are_kept_only_while_reported_recently() {
    let previous = server_session(MediaServerKind::Jellyfin, "s1", false, false);
    let reported = vec![server_session(MediaServerKind::Jellyfin, "s1", false, true)];
    assert!(keeps_observed_session(&previous, 1_000, &reported, 1_000 + SHARED_SESSION_RETENTION_MS - 1));
    assert!(!keeps_observed_session(&previous, 1_000, &reported, 1_000 + SHARED_SESSION_RETENTION_MS));
    assert!(!keeps_observed_session(&previous, 1_000, &[], 1_000));
}

#[test]
fn shared_session_rows_lose_remote_control() {
    let sessions = vec![
        server_session(MediaServerKind::Jellyfin, "s1", false, true),
        server_session(MediaServerKind::Jellyfin, "s1", true, true),
        server_session(MediaServerKind::Emby, "s1", false, true),
    ];
    assert!(!remote_control_allowed(&sessions, 0));
    assert!(remote_control_allowed(&sessions, 2));
}

#[test]
fn active_item_update_follows_item_changes() {
    let session = playback_session("s1", false, "jpn", None);
    let update = active_item_update(
        MediaServerKind::Jellyfin,
        &session,
        Some("jellyfin|other"),
        Some("old-choice"),
        &[],
        "ja",
        None,
        false,
        Some(7),
    )
    .unwrap();
    assert!(update.item_changed);
    assert!(update.item_ended);
    assert_eq!(update.now_playing.history_id, "jellyfin|item-1");
    assert!(update.chosen_candidate.is_none());
    assert!(update.next_override_candidate_id.is_none());
    assert_eq!(update.now_playing.audio_stream_index, Some(0));

    let same = active_item_update(
        MediaServerKind::Jellyfin,
        &session,
        Some("jellyfin|item-1"),
        None,
        &[],
        "ja",
        None,
        false,
        None,
    )
    .unwrap();
    assert!(!same.item_changed && !same.item_ended);
    assert!(!same.now_playing.subtitle_loading);

    let mut idle = playback_session("s1", false, "jpn", None);
    idle.now_playing = None;
    assert!(active_item_update(MediaServerKind::Jellyfin, &idle, None, None, &[], "ja", None, false, None).is_none());
}

fn published(kind: MediaServerKind, item_id: &str, position_ms: i64) -> NowPlayingState {
    NowPlayingState {
        history_id: format!("{}|{item_id}", if kind == MediaServerKind::Plex { "plex" } else { "jellyfin" }),
        server_kind: kind,
        item_id: item_id.to_string(),
        title: "Title".to_string(),
        series_name: None,
        position_ms,
        duration_ms: None,
        is_paused: false,
        supports_remote_control: true,
        subtitle_stream_index: None,
        subtitle_candidate_id: None,
        subtitle_selection_mode: SubtitleSelectionMode::Auto,
        media_source_id: "source".to_string(),
        file_path: None,
        audio_stream_index: None,
        subtitle_offset_ms: 0,
        subtitle_loading: false,
    }
}

fn summary(id: &str) -> SessionSummary {
    SessionSummary {
        id: id.to_string(),
        remote_session_id: "browser".to_string(),
        server_kind: MediaServerKind::Plex,
        client: "Plex Web".to_string(),
        device_name: "Browser".to_string(),
        user_name: None,
        title: None,
        is_target_language: true,
    }
}

#[test]
fn plex_events_only_update_the_selected_playback_instance() {
    let mut state = SessionState {
        sessions: vec![summary("plex|browser|episode|11"), summary("plex|browser|episode|22")],
        active_session_id: Some("plex|browser|episode|11".to_string()),
        now_playing: Some(published(MediaServerKind::Plex, "episode", 10_000)),
    };

    // The other tab's notification leaves the followed playback alone.
    let other = plex_playing_event(&mut state, "browser", "episode", Some("22"), Some(81_000), "paused");
    assert!(!other.should_poll && other.history_update.is_none());
    assert_eq!(state.now_playing.as_ref().unwrap().position_ms, 10_000);

    let followed = plex_playing_event(&mut state, "browser", "episode", Some("11"), Some(11_000), "playing");
    assert!(!followed.should_poll);
    assert_eq!(followed.history_update, Some(("plex|episode".to_string(), 11_000)));
    assert_eq!(state.now_playing.as_ref().unwrap().position_ms, 11_000);

    // Without an instance key the event cannot be placed: poll instead.
    let unkeyed = plex_playing_event(&mut state, "browser", "episode", None, Some(999_000), "playing");
    assert!(unkeyed.should_poll && unkeyed.history_update.is_none());
    assert_eq!(state.now_playing.as_ref().unwrap().position_ms, 11_000);

    let paused = plex_playing_event(&mut state, "browser", "episode", Some("11"), None, "paused");
    assert_eq!(paused.history_update, Some(("plex|episode".to_string(), 11_000)));
    assert!(state.now_playing.as_ref().unwrap().is_paused);

    let stopped = plex_playing_event(&mut state, "browser", "episode", Some("22"), None, "stopped");
    assert!(stopped.should_poll);
    let unknown_stop = plex_playing_event(&mut state, "tv", "film", None, None, "stopped");
    assert!(!unknown_stop.should_poll);
    assert_eq!(state.sessions.len(), 2);
}

#[test]
fn plex_event_for_a_different_published_item_polls() {
    let mut state = SessionState {
        sessions: vec![summary("plex|browser|episode|11")],
        active_session_id: Some("plex|browser|episode|11".to_string()),
        now_playing: Some(published(MediaServerKind::Plex, "other", 5)),
    };
    let r = plex_playing_event(&mut state, "browser", "episode", Some("11"), Some(6), "playing");
    assert!(r.should_poll && r.history_update.is_none());
    assert_eq!(state.now_playing.as_ref().unwrap().position_ms, 5);
}

#[test]
fn user_subtitle_choice_is_applied_or_refused() {
    let stem = "Japanese Audiobook";
    let exact = sidecar_subtitle_candidate(stem, "/audiobooks/Japanese Audiobook.srt").unwrap();
    let tagged = sidecar_subtitle_candidate(stem, "/audiobooks/Japanese Audiobook.ja.srt").unwrap();
    let candidates = vec![exact.clone(), tagged.clone()];
    let mut state = SessionState {
        sessions: Vec::new(),
        active_session_id: None,
        now_playing: Some(published(MediaServerKind::Jellyfin, "book", 0)),
    };

    let refused = choose_subtitle(&mut state, "jellyfin|book", &candidates, "jpn", Some("missing"), MediaServerKind::Jellyfin);
    assert!(matches!(refused, Err(SubtitleChoiceError::Unavailable)));
    assert_eq!(SubtitleChoiceError::Unavailable.message(), "That subtitle track is no longer available");
    assert!(!state.now_playing.as_ref().unwrap().subtitle_loading);

    let chosen = choose_subtitle(&mut state, "jellyfin|book", &candidates, "jpn", Some(tagged.id.as_str()), MediaServerKind::Jellyfin)
        .ok()
        .unwrap();
    assert_eq!(chosen.mode, SubtitleSelectionMode::Manual);
    assert_eq!(chosen.candidate.unwrap().id, tagged.id);
    assert_eq!(chosen.override_candidate_id.as_deref(), Some(tagged.id.as_str()));
    let np = state.now_playing.as_ref().unwrap();
    assert!(np.subtitle_loading);
    assert_eq!(np.subtitle_candidate_id.as_deref(), Some(tagged.id.as_str()));
    assert_eq!(np.subtitle_selection_mode, SubtitleSelectionMode::Manual);

    // Back to the automatic choice: no override is kept.
    let automatic = choose_subtitle(&mut state, "jellyfin|book", &candidates, "jpn", None, MediaServerKind::Jellyfin)
        .ok()
        .unwrap();
    assert!(automatic.override_candidate_id.is_none());
    assert_ne!(automatic.mode, SubtitleSelectionMode::Manual);

    // Another item is published: its state is left alone.
    let mut other = SessionState {
        sessions: Vec::new(),
        active_session_id: None,
        now_playing: Some(published(MediaServerKind::Jellyfin, "film", 0)),
    };
    choose_subtitle(&mut other, "jellyfin|book", &candidates, "jpn", Some(exact.id.as_str()), MediaServerKind::Jellyfin)
        .ok()
        .unwrap();
    assert!(!other.now_playing.as_ref().unwrap().subtitle_loading);
}

#[test]
fn poll_interval_depends_on_servers_and_websocket() {
    let plex = [MediaServerKind::Plex];
    let both = [MediaServerKind::Plex, MediaServerKind::Jellyfin];
    assert_eq!(poll_interval_ms(&plex, true, Some(MediaServerKind::Plex)), 5_000);
    assert_eq!(poll_interval_ms(&both, true, Some(MediaServerKind::Jellyfin)), 100);
    assert_eq!(poll_interval_ms(&both, false, Some(MediaServerKind::Plex)), 100);
    assert_eq!(poll_interval_ms(&plex, false, Some(MediaServerKind::Plex)), 1_000);
    assert_eq!(poll_interval_ms(&plex, true, None), 5_000);
    assert_eq!(poll_interval_ms(&both, false, None), 1_000);
    assert_eq!(poll_interval_ms(&[], false, None), 1_000);
}

#[test]
fn disk_fallback_prefers_fitting_then_unlabelled_sidecars() {
    let stem = "Show 01";
    let english = sidecar_subtitle_candidate(stem, "/m/Show 01.en.srt").unwrap();
    let japanese = sidecar_subtitle_candidate(stem, "/m/Show 01.ja.srt").unwrap();
    let plain = sidecar_subtitle_candidate(stem, "/m/Show 01.srt").unwrap();
    let sidecars = vec![english.clone(), plain.clone(), japanese.clone()];

    // No track chosen: a sidecar in the target language.
    assert_eq!(fallback_sidecar(&sidecars, None, "jpn"), Some(2));
    // Nothing in the target language: the one without a language.
    assert_eq!(fallback_sidecar(&sidecars, None, "kor"), Some(1));
    // Only labelled sidecars in other languages: the first.
    assert_eq!(fallback_sidecar(&[english.clone()], None, "kor"), Some(0));
    assert_eq!(fallback_sidecar(&[], None, "jpn"), None);

    // A chosen server track in English falls back to the English sidecar.
    let mut stream = MediaStream {
        index: 3,
        stream_type: StreamType::Subtitle,
        codec: Some("srt".to_string()),
        language: Some("en".to_string()),
        display_title: None,
        is_default: false,
        is_external: false,
        is_text_subtitle_stream: true,
        title: None,
    };
    let server_track = subtitle_candidate_from_stream(&stream, false);
    assert_eq!(fallback_sidecar(&sidecars, Some(&server_track), "kor"), Some(0));
    // A chosen sidecar never matches by language.
    assert_eq!(fallback_sidecar(&sidecars, Some(&japanese), "jpn"), Some(1));
    stream.language = None;
    let unlabelled_track = subtitle_candidate_from_stream(&stream, false);
    assert_eq!(fallback_sidecar(&sidecars, Some(&unlabelled_track), "jpn"), Some(2));
}

#[test]
fn fuzzy_ties_ignore_letter_case() {
    // Compared as written, "B" would sort before "a".
    let listing = paths(&["B.srt", "a.srt"]);
    let candidates = sidecar_subtitle_candidates("zz", &listing);
    assert_eq!(candidates[0].id, "sidecar:a.srt");
    assert_eq!(candidates[1].id, "sidecar:B.srt");
}

#[test]
fn seek_and_play_pause_need_an_active_session() {
    let state = SessionState { sessions: vec![summary("plex|a")], active_session_id: None, now_playing: None };
    assert_eq!(seek_target(&state).err().unwrap(), "No active session");
    assert_eq!(play_pause_command(&state, None).err().unwrap(), "No active session");
}

#[test]
fn seek_targets_the_listed_provider_session() {
    let mut state = SessionState {
        sessions: vec![summary("plex|browser|episode|11")],
        active_session_id: Some("plex|browser|episode|11".to_string()),
        now_playing: None,
    };
    assert_eq!(seek_target(&state).err().unwrap(), "No active playback item");
    let mut playing = published(MediaServerKind::Plex, "episode", 10_000);
    playing.is_paused = true;
    state.now_playing = Some(playing);
    let target = seek_target(&state).ok().unwrap();
    assert_eq!(target.server_kind, MediaServerKind::Plex);
    assert_eq!(target.session_id, "browser");
    assert!(target.paused);

    state.active_session_id = Some("plex|missing".to_string());
    assert_eq!(seek_target(&state).err().unwrap(), "Malformed session identifier");
}

#[test]
fn remote_commands_are_refused_without_companion_control() {
    let mut playing = published(MediaServerKind::Plex, "episode", 0);
    playing.supports_remote_control = false;
    let state = SessionState {
        sessions: vec![summary("plex|a")],
        active_session_id: Some("plex|a".to_string()),
        now_playing: Some(playing),
    };
    let message = seek_target(&state).err().unwrap();
    assert!(message.starts_with("Plex Web is not exposing companion control"));
    assert_eq!(play_pause_command(&state, Some(true)).err().unwrap(), message);
}

#[test]
fn play_pause_toggles_unless_a_state_is_requested() {
    let mut state = SessionState {
        sessions: vec![summary("jellyfin|a")],
        active_session_id: Some("jellyfin|a".to_string()),
        now_playing: None,
    };
    // Nothing known yet: the command goes to Emby and pauses.
    let blind = play_pause_command(&state, None).ok().unwrap();
    assert_eq!(blind.server_kind, MediaServerKind::Emby);
    assert!(blind.pause);
    assert_eq!(blind.session_id, "browser");

    let mut playing = published(MediaServerKind::Jellyfin, "item", 0);
    playing.is_paused = true;
    state.now_playing = Some(playing);
    let toggled = play_pause_command(&state, None).ok().unwrap();
    assert_eq!(toggled.server_kind, MediaServerKind::Jellyfin);
    assert!(!toggled.pause);
    assert!(play_pause_command(&state, Some(true)).ok().unwrap().pause);
}

fn tab(item_id: &str, playback_id: &str) -> ServerSession {
    let mut s = server_session(MediaServerKind::Plex, "browser", false, true);
    s.session.playback_session_id = Some(playback_id.to_string());
    s.session.now_playing.as_mut().unwrap().item_id = item_id.to_string();
    s
}

#[test]
fn first_poll_observes_playing_sessions_only() {
    let mut observed = PlaybackSessions::new();
    let mut idle = server_session(MediaServerKind::Jellyfin, "idle", false, true);
    idle.session.now_playing = None;
    let listed = observed.update(vec![server_session(MediaServerKind::Jellyfin, "s1", false, true), idle], 1_000);
    assert_eq!(listed.len(), 1);
    assert_eq!(listed[0].session.id, "s1");
    assert!(listed[0].reported && listed[0].newly_observed);
    assert!(listed[0].session.supports_remote_control);

    // Reported again: known, no longer new.
    let again = observed.update(vec![server_session(MediaServerKind::Jellyfin, "s1", true, true)], 2_000);
    assert_eq!(again.len(), 1);
    assert!(again[0].reported && !again[0].newly_observed);
    assert!(again[0].session.play_state.is_paused);
}

#[test]
fn shared_browser_rows_are_kept_briefly_without_remote_control() {
    let mut observed = PlaybackSessions::new();
    observed.update(vec![tab("episode-1", "11")], 1_000);
    // The same browser now reports another playback instance: the first row
    // is kept (not reported) while its connection is still reported.
    let listed = observed.update(vec![tab("episode-2", "11")], 2_000);
    assert_eq!(listed.len(), 2);
    let kept = listed.iter().find(|s| !s.reported).unwrap();
    assert_eq!(kept.session.now_playing.as_ref().unwrap().item_id, "episode-1");
    assert!(listed.iter().all(|s| !s.session.supports_remote_control));

    // Another playback instance: neither earlier row shares its connection.

    let listed = observed.update(vec![tab("episode-2", "22")], 3_000);
    assert_eq!(listed.len(), 1);
    assert_eq!(listed[0].session.playback_session_id.as_deref(), Some("22"));
    assert!(listed[0].newly_observed);
}

#[test]
fn two_tabs_of_one_browser_share_the_connection() {
    let mut observed = PlaybackSessions::new();
    let listed = observed.update(vec![tab("episode-1", "11"), tab("episode-2", "22")], 1_000);
    assert_eq!(listed.len(), 2);
    assert!(listed.iter().all(|s| !s.session.supports_remote_control));
    assert!(listed.iter().all(|s| s.reported && s.newly_observed));

    // Only one tab checks in: the other is gone (its playback instance no
    // longer matches any reported connection).
    let listed = observed.update(vec![tab("episode-1", "11")], 2_000);
    assert_eq!(listed.len(), 1);
    assert!(listed[0].session.supports_remote_control);
    assert!(!listed[0].newly_observed);
}

#[test]
fn unreported_rows_expire_after_the_retention_time() {
    let mut observed = PlaybackSessions::new();
    let mut shared = server_session(MediaServerKind::Jellyfin, "s1", false, true);
    shared.session.now_playing.as_mut().unwrap().item_id = "old".to_string();
    observed.update(vec![shared], 0);
    let current = server_session(MediaServerKind::Jellyfin, "s1", false, true);

    let listed = observed.update(vec![current], 1_000);
    assert_eq!(listed.len(), 2);
    let kept = listed.iter().find(|s| !s.reported).unwrap();
    assert_eq!(kept.session.now_playing.as_ref().unwrap().item_id, "old");
    assert!(!kept.newly_observed);
    assert!(listed.iter().all(|s| !s.session.supports_remote_control));

    let current = server_session(MediaServerKind::Jellyfin, "s1", false, true);
    let listed = observed.update(vec![current], SHARED_SESSION_RETENTION_MS);
    assert_eq!(listed.len(), 1);
    assert!(listed[0].reported);

    observed.clear();
    assert!(observed.update(Vec::new(), SHARED_SESSION_RETENTION_MS).is_empty());
}

fn browser_tab(item_id: &str, paused: bool) -> ServerSession {
    let mut s = server_session(MediaServerKind::Jellyfin, "browser", paused, true);
    s.session.client = "Web".to_string();
    s.session.device_name = "Firefox".to_string();
    let item = s.session.now_playing.as_mut().unwrap();
    item.item_id = item_id.to_string();
    item.name = item_id.to_string();
    s
}

/// One poll through the library: record the reported sessions, order them
/// and choose the one to follow; returns the followed item.
fn follow_poll(
    observed: &mut PlaybackSessions,
    active: &mut Option<String>,
    reported: Vec<ServerSession>,
    now: u64,
) -> Option<String> {
    let listed = observed.update(reported, now);
    let sorted = sort_by_auto_priority(listed, "jpn");
    let choice = choose_active_session(&sorted, None, active.as_deref());
    *active = choice.map(|k| sorted[k].id());
    choice.map(|k| sorted[k].session.now_playing.as_ref().unwrap().item_id.clone())
}

#[test]
fn new_items_take_over_but_known_tab_checkins_do_not() {
    let mut observed = PlaybackSessions::new();
    let mut active = None;
    let a = || browser_tab("episode-a", false);
    let b = || browser_tab("episode-b", false);
    assert_eq!(follow_poll(&mut observed, &mut active, vec![a()], 1_000).as_deref(), Some("episode-a"));
    // A newly started item on the same browser takes over.
    assert_eq!(follow_poll(&mut observed, &mut active, vec![b()], 2_000).as_deref(), Some("episode-b"));
    // The other tab checking in again does not steal the selection.
    for poll in 0..6u64 {
        let tab = if poll % 2 == 0 { a() } else { b() };
        assert_eq!(
            follow_poll(&mut observed, &mut active, vec![tab], 3_000 + poll * 1_000).as_deref(),
            Some("episode-b")
        );
    }
    // Paused, the followed tab is kept while nothing else plays.
    let paused = browser_tab("episode-b", true);
    assert_eq!(follow_poll(&mut observed, &mut active, vec![paused], 10_000).as_deref(), Some("episode-b"));
    // Playback elsewhere wins over a paused session.
    assert_eq!(follow_poll(&mut observed, &mut active, vec![a()], 11_000).as_deref(), Some("episode-a"));
    // Nothing reported: nothing listed, nothing followed.
    assert_eq!(follow_poll(&mut observed, &mut active, Vec::new(), 12_000), None);
    assert!(observed.update(Vec::new(), 13_000).is_empty());
}

#[test]
fn shared_browser_row_keeps_items_and_selection_stable() {
    for kind in [MediaServerKind::Jellyfin, MediaServerKind::Emby, MediaServerKind::Plex] {
        let tab = |item: &str| {
            let mut s = browser_tab(item, true);
            s.kind = kind;
            s
        };
        let first_id = format!("{}|browser|episode-a", kind.as_str());
        let second_id = format!("{}|browser|episode-b", kind.as_str());
        let mut observed = PlaybackSessions::new();
        let mut now = 1_000u64;
        observed.update(vec![tab("episode-a")], now);
        let mut active: Option<String> = Some(first_id.clone());

        // One provider row alternating between two paused tabs: neither the
        // selection nor the listed rows bounce.
        for manual in [false, true] {
            let selected = if manual { Some(second_id.clone()) } else { None };
            for poll in 0..12 {
                now += 1_000;
                let row = if poll % 2 == 0 { tab("episode-b") } else { tab("episode-a") };
                let listed = observed.update(vec![row], now);
                let sorted = sort_by_auto_priority(listed, "jpn");
                let k = choose_active_session(&sorted, selected.as_deref(), active.as_deref()).unwrap();
                active = Some(sorted[k].id());
                assert_eq!(active.as_deref(), Some(if manual { second_id.as_str() } else { first_id.as_str() }));
                assert!(!sorted[k].session.supports_remote_control);
                let summaries = session_summaries(&sorted, "jpn");
                let ids: Vec<&str> = summaries.iter().map(|s| s.id.as_str()).collect();
                assert_eq!(ids, vec![first_id.as_str(), second_id.as_str()]);
                let state = SessionState { sessions: summaries, active_session_id: active.clone(), now_playing: None };
                assert_eq!(state.active_remote_session_id(), Some("browser"));
            }
        }

        // The missing tab expires while the shared device keeps checking in.
        now += SHARED_SESSION_RETENTION_MS;
        let listed = observed.update(vec![tab("episode-a")], now);
        let sorted = sort_by_auto_priority(listed, "jpn");
        assert_eq!(sorted.len(), 1);
        assert!(choose_active_session(&sorted, Some(second_id.as_str()), active.as_deref()).is_none());
        assert!(sorted[0].session.supports_remote_control);

        // An explicit unload removes the rows at once.
        let mut unloaded = tab("episode-a");
        unloaded.session.now_playing = None;
        assert!(observed.update(vec![unloaded], now + 1_000).is_empty());
    }
}

use nagare::anki::{
    grace_remaining_since, note_info_to_event, should_skip_note, AnkiStatus, AnkiConnectionState,
    HeartbeatState, NoteField, NoteInfo,
};
use nagare::api::{enhancement_queue_message, remote_control_error, EnhancementQueueState};
use nagare::config::{AnkiConfig, Config, MediaAccessMode, MediaServerKind, StaticScreenshotFormat};
use nagare::config::{AnimatedScreenshotEncoder, AudioCodec};
use nagare::media::{
    audio_extraction_args, avif_args, avif_filter, avif_plan, http_input_args, resolve_media_source, screenshot_args,
    seconds_arg, static_screenshot_attempts, to_base64, AvifPlan, MediaSourceError,
};
use nagare::media_server::{MediaStream, NowPlaying, StreamType};
use nagare::plex_websocket::websocket_url;
use nagare::session::SessionState;

fn note(model: &str, tags: &[&str], fields: &[(&str, &str)]) -> NoteInfo {
    NoteInfo {
        note_id: 7,
        model_name: model.to_string(),
        tags: tags.iter().map(|t| t.to_string()).collect(),
        fields: fields
            .iter()
            .enumerate()
            .map(|(i, (n, v))| (n.to_string(), NoteField { value: v.to_string(), order: i as i32 }))
            .collect(),
    }
}

#[test]
fn base64_uses_the_standard_alphabet_with_padding() {
    assert_eq!(to_base64(b"hello"), "aGVsbG8=");
    assert_eq!(to_base64(b""), "");
    assert_eq!(to_base64(&[0xfb, 0xff]), "+/8=");
}

#[test]
fn media_sources_follow_the_access_mode() {
    let mut config = Config::default();
    config.media_access_mode = MediaAccessMode::Auto;
    assert_eq!(resolve_media_source(&config, Some("url".into()), Some("/disk".into())).unwrap(), "/disk");
    assert_eq!(resolve_media_source(&config, Some("url".into()), None).unwrap(), "url");
    assert_eq!(resolve_media_source(&config, None, None).unwrap_err(), MediaSourceError::Unavailable);
    config.media_access_mode = MediaAccessMode::Api;
    assert_eq!(resolve_media_source(&config, Some("url".into()), Some("/disk".into())).unwrap(), "url");
    assert_eq!(resolve_media_source(&config, None, Some("/disk".into())).unwrap_err(), MediaSourceError::ApiWithoutServer);
}

#[test]
fn ffmpeg_inputs_and_screenshot_fallbacks() {
    assert_eq!(http_input_args("https://x/y").len(), 6);
    assert!(http_input_args("/local/file.mkv").is_empty());
    assert_eq!(
        static_screenshot_attempts(StaticScreenshotFormat::Png),
        vec![StaticScreenshotFormat::Png, StaticScreenshotFormat::Jpg, StaticScreenshotFormat::Webp]
    );
}

#[test]
fn plex_websocket_urls() {
    assert_eq!(
        websocket_url("https://plex.local:32400/", "tok").unwrap(),
        "wss://plex.local:32400/:/websockets/notifications?X-Plex-Token=tok"
    );
    assert_eq!(
        websocket_url("http://h", "t").unwrap(),
        "ws://h/:/websockets/notifications?X-Plex-Token=t"
    );
    assert!(websocket_url("ftp://h", "t").is_err());
}

#[test]
fn anki_notes_and_filters() {
    let n = note("Mining", &["anime"], &[("Sentence", "文"), ("SentenceAudio", ""), ("Picture", "x.webp")]);
    let event = note_info_to_event(n, "Sentence");
    assert_eq!(event.sentence, "文");
    assert_eq!(note_info_to_event(note("M", &[], &[]), "Sentence").sentence, "");

    let mut cfg = AnkiConfig::default();
    assert!(!should_skip_note(&note("M", &[], &[("SentenceAudio", " "), ("Picture", "p")]), &cfg));
    assert!(should_skip_note(&note("M", &[], &[("SentenceAudio", "a"), ("Picture", "p")]), &cfg));
    cfg.note_types = vec!["Mining".to_string()];
    assert!(should_skip_note(&note("Basic", &[], &[]), &cfg));
    cfg.note_types.clear();
    cfg.ignore_tags = vec!["skip".to_string()];
    assert!(should_skip_note(&note("M", &["skip"], &[]), &cfg));
    cfg.ignore_tags.clear();
    cfg.require_tags = vec!["need".to_string()];
    assert!(should_skip_note(&note("M", &["other"], &[]), &cfg));
    assert!(!should_skip_note(&note("M", &["need"], &[]), &cfg));
}

#[test]
fn anki_liveness() {
    assert_eq!(AnkiStatus::default().state, AnkiConnectionState::Unknown);
    assert_eq!(grace_remaining_since(Some(100_000)), Some(500_000));
    assert_eq!(grace_remaining_since(Some(600_000)), None);
    assert_eq!(grace_remaining_since(None), None);
    let h = HeartbeatState { received_at_ms: 1_000, session_id: None, interval_ms: 20_000 };
    assert_eq!(h.stale_after(), 60_000);
    assert!(h.is_fresh(60_999));
    assert!(!h.is_fresh(61_000));
    assert_eq!(h.duration_until_stale(31_000), 30_000);
    let short = HeartbeatState { received_at_ms: 0, session_id: None, interval_ms: 1 };
    assert_eq!(short.stale_after(), 30_000);
}

#[test]
fn api_messages() {
    assert_eq!(enhancement_queue_message(12, EnhancementQueueState::Queued), "Queued note #12");
    assert_eq!(enhancement_queue_message(-3, EnhancementQueueState::Running), "Enhancing note #-3...");
    let state = SessionState { sessions: vec![], active_session_id: None, now_playing: None };
    assert_eq!(
        remote_control_error(&state, MediaServerKind::Plex),
        "Remote control is unavailable for the active session"
    );
}

#[test]
fn now_playing_streams_and_titles() {
    let stream = |index: u32, t: StreamType, lang: &str| MediaStream {
        index,
        stream_type: t,
        codec: None,
        language: Some(lang.to_string()),
        display_title: None,
        is_default: false,
        is_external: false,
        is_text_subtitle_stream: true,
        title: None,
    };
    let np = NowPlaying {
        item_id: "i".to_string(),
        name: "Name".to_string(),
        series_name: Some("Series".to_string()),
        season_index: Some(1),
        episode_index: Some(123),
        media_type: "Episode".to_string(),
        run_time_ticks: None,
        media_streams: vec![
            stream(0, StreamType::Audio, "jpn"),
            stream(1, StreamType::Subtitle, "jpn"),
            stream(2, StreamType::Subtitle, "eng"),
            stream(3, StreamType::Subtitle, "jpn"),
        ],
        media_source_id: None,
        path: None,
    };
    assert!(np.has_audio_language("jpn"));
    assert!(!np.has_audio_language("eng"));
    let subs: Vec<u32> = np.subtitle_streams_for_language("jpn").iter().map(|s| s.index).collect();
    assert_eq!(subs, vec![1, 3]);
    assert_eq!(np.display_title(), "Series S01E123 - Name");
}

#[test]
fn seconds_are_printed_with_three_decimals() {
    assert_eq!(seconds_arg(0), "0.000");
    assert_eq!(seconds_arg(61_005), "61.005");
    assert_eq!(seconds_arg(1_500), "1.500");
    assert_eq!(seconds_arg(-1), "-0.001");
    assert_eq!(seconds_arg(-2_250), "-2.250");
}

#[test]
fn audio_extraction_prefers_the_audio_ordinal() {
    let args = audio_extraction_args("/media/ep01.mkv", 61_000, 63_250, Some(3), Some(1), AudioCodec::Opus, "/tmp/a.opus");
    assert_eq!(
        args,
        vec![
            "-y", "-ss", "61.000", "-i", "/media/ep01.mkv", "-t", "2.250", "-map", "0:a:1", "-vn", "-acodec", "libopus",
            "-b:a", "64k", "-ac", "1", "/tmp/a.opus",
        ]
    );
    let by_index = audio_extraction_args("http://host/v", 0, 1_000, Some(3), None, AudioCodec::Mp3, "o.mp3");
    assert_eq!(&by_index[..6], &["-protocol_whitelist", "file,http,https,tcp,tls", "-reconnect", "1", "-reconnect_streamed", "1"]);
    assert!(by_index.windows(2).any(|w| w[0] == "-map" && w[1] == "0:3"));
    let default_track = audio_extraction_args("v.mkv", 0, 1_000, None, None, AudioCodec::Aac, "o.m4a");
    assert!(!default_track.iter().any(|a| a == "-map"));
    assert_eq!(&default_track[default_track.len() - 3..], &["-movflags", "+faststart", "o.m4a"]);
}

#[test]
fn screenshot_arguments_follow_the_format() {
    let args = screenshot_args("v.mkv", 12_345, "/tmp/s.webp", StaticScreenshotFormat::Webp);
    assert_eq!(
        args,
        vec![
            "-y", "-ss", "12.345", "-i", "v.mkv", "-frames:v", "1", "-vf", "scale=640:-1", "-c:v", "libwebp", "-quality",
            "90", "/tmp/s.webp",
        ]
    );
    let png = screenshot_args("v.mkv", 0, "s.png", StaticScreenshotFormat::Png);
    assert_eq!(&png[9..13], &["-c:v", "png", "-compression_level", "6"]);
    let jpg = screenshot_args("v.mkv", 0, "s.jpg", StaticScreenshotFormat::Jpg);
    assert_eq!(&jpg[9..13], &["-c:v", "mjpeg", "-q:v", "2"]);
}

#[test]
fn animated_screenshots_shrink_for_longer_clips() {
    assert_eq!(avif_plan(0, 4_000, 480, 12), AvifPlan { fps: 12, width: 480, crf: 40 });
    assert_eq!(avif_plan(0, 5_000, 480, 12), AvifPlan { fps: 12, width: 480, crf: 40 });
    // 12 * 0.8 = 9.6 -> 10; 480 * 5/6 = 400.
    assert_eq!(avif_plan(0, 7_000, 480, 12), AvifPlan { fps: 10, width: 400, crf: 42 });
    // 12 * 0.6 = 7.2 -> 7; 480 * 0.75 = 360.
    assert_eq!(avif_plan(1_000, 12_000, 480, 12), AvifPlan { fps: 7, width: 360, crf: 45 });
    // Halves round up: 2 * 0.75 = 1.5 -> 2; 3 * 5/6 = 2.5 -> 3.
    assert_eq!(avif_plan(0, 20_000, 2, 1).width, 2);
    assert_eq!(avif_plan(0, 6_000, 3, 1).width, 3);
    // Floors: at least 1 frame per second and 2 pixels.
    assert_eq!(avif_plan(0, 20_000, 1, 1), AvifPlan { fps: 1, width: 2, crf: 45 });
    assert_eq!(avif_plan(0, 1_000, 0, 0), AvifPlan { fps: 1, width: 2, crf: 40 });
}

#[test]
fn animated_screenshot_arguments() {
    let plan = avif_plan(0, 4_000, 480, 12);
    let filter = avif_filter(plan);
    assert_eq!(filter, "fps=12,scale='min(480,iw)':-2");
    let svt = avif_args("v.mkv", 1_000, 5_000, &filter, plan.crf, AnimatedScreenshotEncoder::Libsvtav1, "o.avif");
    assert_eq!(
        svt,
        vec![
            "-y", "-ss", "1.000", "-i", "v.mkv", "-t", "4.000", "-vf", "fps=12,scale='min(480,iw)':-2", "-c:v",
            "libsvtav1", "-crf", "40", "-preset", "8", "-an", "-movflags", "+faststart", "o.avif",
        ]
    );
    let aom = avif_args("v.mkv", 1_000, 5_000, &filter, 45, AnimatedScreenshotEncoder::LibaomAv1, "o.avif");
    assert!(!aom.iter().any(|a| a == "-preset"));
    assert_eq!(aom[10], "libaom-av1");
    assert_eq!(aom[12], "45");
}

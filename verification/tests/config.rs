use nagare::config::{
    AnimatedScreenshotEncoder, AudioCodec, Config, EmbyConfig, JellyfinConfig, MediaServerKind,
    PathMapping, PlexConfig, StaticScreenshotFormat,
};

fn emby(users: &[&str]) -> EmbyConfig {
    EmbyConfig {
        enabled: true,
        url: "http://emby".to_string(),
        api_key: "k".to_string(),
        users: users.iter().map(|u| u.to_string()).collect(),
    }
}

#[test]
fn kinds_round_trip_through_their_names() {
    for kind in [
        MediaServerKind::Emby,
        MediaServerKind::Jellyfin,
        MediaServerKind::Plex,
        MediaServerKind::Audiobookshelf,
    ] {
        assert_eq!(MediaServerKind::parse(kind.as_str()), Some(kind));
    }
    assert_eq!(MediaServerKind::parse("Plex"), None);
    assert_eq!(MediaServerKind::Audiobookshelf.display_name(), "AudioBookShelf");
}

#[test]
fn codec_and_format_names() {
    assert_eq!(AudioCodec::Aac.extension(), "m4a");
    assert_eq!(AudioCodec::Opus.mime_type(), "audio/ogg; codecs=opus");
    assert_eq!(
        AudioCodec::Aac.ffmpeg_args(),
        vec!["-acodec", "aac", "-b:a", "96k", "-ac", "1", "-movflags", "+faststart"]
    );
    assert_eq!(AudioCodec::Mp3.ffmpeg_args().len(), 6);
    assert_eq!(AnimatedScreenshotEncoder::Libsvtav1.fallback(), AnimatedScreenshotEncoder::LibaomAv1);
    assert_eq!(AnimatedScreenshotEncoder::LibaomAv1.as_str(), "libaom-av1");
    assert_eq!(StaticScreenshotFormat::Jpg.extension(), "jpg");
    assert_eq!(StaticScreenshotFormat::Jpg.mime_type(), "image/jpeg");
}

#[test]
fn path_mappings_rewrite_the_first_matching_prefix() {
    let mut config = Config::default();
    config.path_mappings = vec![
        PathMapping { from: "D:\\Media\\".to_string(), to: "/mnt/media".to_string() },
        PathMapping { from: "/data".to_string(), to: "/srv/".to_string() },
    ];
    assert_eq!(config.map_path("d:/media/Show/ep1.mkv"), "/mnt/media/Show/ep1.mkv");
    assert_eq!(config.map_path("D:\\Media\\Show\\ep1.mkv"), "/mnt/media/Show\\ep1.mkv");
    assert_eq!(config.map_path("/data/a.mkv"), "/srv/a.mkv");
    assert_eq!(config.map_path("/data"), "/srv/");
    assert_eq!(config.map_path("/database/a.mkv"), "/database/a.mkv");
}

#[test]
fn servers_and_user_allowlists() {
    let mut config = Config::default();
    assert!(!config.has_server());
    config.emby = Some(emby(&[]));
    config.plex = Some(PlexConfig {
        enabled: true,
        url: "http://plex".to_string(),
        token: "t".to_string(),
        users: vec!["alice".to_string()],
    });
    config.jellyfin = Some(JellyfinConfig {
        enabled: false,
        url: "http://jf".to_string(),
        api_key: "k".to_string(),
        users: vec![],
    });
    assert_eq!(
        config.enabled_server_kinds(),
        vec![MediaServerKind::Emby, MediaServerKind::Plex]
    );
    assert!(config.has_server());
    assert!(config.is_user_allowed(MediaServerKind::Emby, None, None));
    assert!(config.is_user_allowed(MediaServerKind::Plex, Some("x"), Some("alice")));
    assert!(!config.is_user_allowed(MediaServerKind::Plex, Some("bob"), None));
    assert_eq!(config.allowed_users(MediaServerKind::Plex).len(), 1);
    assert!(config.allowed_users(MediaServerKind::Audiobookshelf).is_empty());
}

#[test]
fn connection_changes_ignore_user_lists() {
    let mut a = Config::default();
    let mut b = Config::default();
    a.emby = Some(emby(&["u1"]));
    b.emby = Some(emby(&["u2"]));
    assert!(!a.server_connection_changed(&b));
    b.emby.as_mut().unwrap().api_key = "other".to_string();
    assert!(a.server_connection_changed(&b));
    b.emby = None;
    assert!(a.server_connection_changed(&b));
    assert!(!b.server_connection_changed(&b));
}

#[test]
fn defaults_match_the_documented_values() {
    let config = Config::default();
    assert_eq!(config.listen_address, "0.0.0.0:9470");
    assert_eq!(config.target_language, "jpn");
    assert_eq!(config.native_language, "eng");
    assert_eq!(config.anki.url, "http://localhost:8765");
    assert_eq!(config.anki.fields.sentence_audio, "SentenceAudio");
    assert_eq!(config.mining.avif_max_width, 480);
    assert_eq!(config.tadoku.export_hour_eastern, 20);
}

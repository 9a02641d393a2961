use nagare::json::{JsonNumber, JsonValue};
use nagare::media_server::{StreamType, SubtitleFormat};
use nagare::anki::{
    card_id_from_value, ids_from_result, new_note_ids, note_field_from_value, notes_from_result, provided_card_ids,
};
use nagare::plex_websocket::{parse_notification, playing_notifications};
use nagare::{mediabrowser, plex};

fn convert(v: &serde_json::Value) -> JsonValue {
    match v {
        serde_json::Value::Null => JsonValue::Null,
        serde_json::Value::Bool(b) => JsonValue::Bool(*b),
        serde_json::Value::Number(n) => JsonValue::Number(if let Some(u) = n.as_u64() {
            JsonNumber::PosInt(u)
        } else if let Some(i) = n.as_i64() {
            JsonNumber::NegInt(i)
        } else {
            JsonNumber::Float
        }),
        serde_json::Value::String(s) => JsonValue::String(s.clone()),
        serde_json::Value::Array(a) => JsonValue::Array(a.iter().map(convert).collect()),
        serde_json::Value::Object(o) => {
            JsonValue::Object(o.iter().map(|(k, v)| (k.clone(), convert(v))).collect())
        }
    }
}

fn json(text: &str) -> JsonValue {
    convert(&serde_json::from_str::<serde_json::Value>(text).unwrap())
}

const PLEX_SESSION: &str = r#"{
    "ratingKey": "4242",
    "title": "The Episode",
    "grandparentTitle": "The Show",
    "parentIndex": 1,
    "index": 3,
    "type": "episode",
    "duration": 1440000,
    "viewOffset": 61000,
    "sessionKey": 7,
    "User": {"id": 12, "title": "alice"},
    "Session": {"id": " sess-9 "},
    "Player": {"machineIdentifier": "machine-1", "product": "Plex Web", "title": "Firefox",
               "state": "paused", "playbackSessionId": "machine-1", "address": "10.0.0.5"},
    "Media": [
        {"selected": false, "Part": [{"id": 1, "file": "/other.mkv", "Stream": []}]},
        {"selected": true, "Part": [{"id": "77", "file": "/show/e03.mkv", "Stream": [
            {"streamType": 1, "index": 0, "codec": "h264"},
            {"streamType": 2, "index": "1", "codec": "aac", "languageCode": "jpn", "selected": true},
            {"streamType": 3, "id": 5, "codec": "srt", "languageCode": "eng", "key": "/library/streams/5", "selected": true},
            {"streamType": 3, "index": 6, "codec": "pgs"}
        ]}]}
    ]
}"#;

#[test]
fn plex_session_fields() {
    let s = plex::parse_session(&json(PLEX_SESSION)).unwrap();
    assert_eq!(s.id, "machine-1");
    assert_eq!(s.client, "Plex Web");
    assert_eq!(s.device_name, "Firefox");
    assert_eq!(s.user_name.as_deref(), Some("alice"));
    assert_eq!(s.user_id.as_deref(), Some("12"));
    assert!(!s.supports_remote_control);
    assert!(s.play_state.is_paused && s.play_state.can_seek);
    assert_eq!(s.play_state.position_ticks, Some(610_000_000));
    assert_eq!(s.play_state.audio_stream_index, Some(1));
    assert_eq!(s.play_state.subtitle_stream_index, Some(5));
    let np = s.now_playing.unwrap();
    assert_eq!(np.item_id, "4242");
    assert_eq!(np.name, "The Episode");
    assert_eq!(np.series_name.as_deref(), Some("The Show"));
    assert_eq!((np.season_index, np.episode_index), (Some(1), Some(3)));
    assert_eq!(np.media_type, "episode");
    assert_eq!(np.run_time_ticks, Some(14_400_000_000));
    assert_eq!(np.media_source_id.as_deref(), Some("77"));
    assert_eq!(np.path.as_deref(), Some("/show/e03.mkv"));
    assert_eq!(np.media_streams.len(), 4);
    let sub = &np.media_streams[2];
    assert_eq!(sub.stream_type, StreamType::Subtitle);
    assert_eq!(sub.index, 5);
    assert!(sub.is_text_subtitle_stream && sub.is_external);
    assert!(!np.media_streams[3].is_text_subtitle_stream);
    assert_eq!(np.media_streams[1].language.as_deref(), Some("jpn"));
}

#[test]
fn plex_session_without_item_or_player() {
    let idle = plex::parse_session(&json(
        r#"{"Player": {"machineIdentifier": "m", "state": "playing"}, "ratingKey": ""}"#,
    ))
    .unwrap();
    assert!(idle.now_playing.is_none());
    assert_eq!(idle.client, "Unknown");
    assert_eq!(idle.device_name, "Unknown");
    assert!(idle.supports_remote_control && !idle.play_state.is_paused);
    assert_eq!(idle.play_state.position_ticks, Some(0));
    assert!(plex::parse_session(&json(r#"{"Player": {"title": "TV"}}"#)).is_none());
}

#[test]
fn plex_lenient_numbers() {
    assert_eq!(plex::value_as_u64(Some(&json("12"))), Some(12));
    assert_eq!(plex::value_as_u64(Some(&json("\"+34\""))), Some(34));
    assert_eq!(plex::value_as_u64(Some(&json("\"-1\""))), None);
    assert_eq!(plex::value_as_u64(Some(&json("\"18446744073709551616\""))), None);
    assert_eq!(plex::value_as_u64(Some(&json("1.5"))), None);
    assert_eq!(plex::stream_lookup_index(Some(&json(r#"{"id": 9}"#))), 9);
    assert_eq!(plex::stream_lookup_index(Some(&json(r#"{"index": "x", "id": "4"}"#))), 4);
    assert_eq!(plex::stream_lookup_index(None), 0);
}

#[test]
fn plex_response_lists_sessions_with_players() {
    let body = json(&format!(
        r#"{{"MediaContainer": {{"Metadata": [{PLEX_SESSION}, {{"Player": {{}}}}, {{"Player": {{"machineIdentifier": "tv"}}}}]}}}}"#
    ));
    let sessions = plex::sessions_from_body(&body);
    assert_eq!(sessions.len(), 2);
    assert_eq!(sessions[0].id, "machine-1");
    assert_eq!(sessions[1].id, "tv");
    assert!(plex::sessions_from_body(&json("{}")).is_empty());
}

#[test]
fn plex_control_info_collects_unique_identifiers() {
    let body = json(&format!(r#"{{"MediaContainer": {{"Metadata": [{PLEX_SESSION}]}}}}"#));
    let info = plex::session_control_info(&body, "machine-1");
    assert_eq!(info.identifiers, vec!["machine-1", "sess-9", "7"]);
    assert_eq!(info.player_address.as_deref(), Some("10.0.0.5"));
    let missing = plex::session_control_info(&body, "other");
    assert_eq!(missing.identifiers, vec!["other"]);
    assert!(missing.player_address.is_none());
}

#[test]
fn push_unique_trims_and_skips_repeats() {
    let mut values = vec!["a".to_string()];
    plex::push_unique(&mut values, Some(" b ".to_string()));
    plex::push_unique(&mut values, Some("a".to_string()));
    plex::push_unique(&mut values, Some("   ".to_string()));
    plex::push_unique(&mut values, None);
    assert_eq!(values, vec!["a", "b"]);
}

const JELLYFIN_SESSION: &str = r#"{
    "Id": "abc",
    "Client": "Jellyfin Web",
    "DeviceName": "Chrome",
    "UserName": "bob",
    "UserId": "u1",
    "SupportsRemoteControl": true,
    "PlayState": {"CanSeek": true, "IsPaused": false, "PositionTicks": 123450000,
                  "AudioStreamIndex": 1, "SubtitleStreamIndex": -1, "MediaSourceId": "ms-2"},
    "NowPlayingItem": {
        "Id": "item-9", "Name": "Pilot", "SeriesName": "Show", "ParentIndexNumber": 2,
        "IndexNumber": 1, "MediaType": "Video", "RunTimeTicks": 9000000000,
        "MediaStreams": [
            {"Index": 1, "Type": "Audio", "Codec": "aac", "Language": "jpn", "IsDefault": true},
            {"Index": 2, "Type": "Subtitle", "Codec": "subrip", "IsExternal": true, "IsTextSubtitleStream": true},
            {"Index": 3, "Type": "Attachment"}
        ],
        "MediaSources": [
            {"Id": "ms-1", "Path": "/media/a.mkv"},
            {"Id": "ms-2", "Path": "/media/b.mkv"}
        ]
    }
}"#;

#[test]
fn jellyfin_session_fields() {
    let s = mediabrowser::parse_session(&json(JELLYFIN_SESSION)).unwrap();
    assert_eq!(s.id, "abc");
    assert_eq!(s.client, "Jellyfin Web");
    assert_eq!(s.device_name, "Chrome");
    assert_eq!(s.user_id.as_deref(), Some("u1"));
    assert!(s.supports_remote_control);
    assert!(s.play_state.can_seek && !s.play_state.is_paused);
    assert_eq!(s.play_state.position_ticks, Some(123_450_000));
    assert_eq!(s.play_state.audio_stream_index, Some(1));
    assert_eq!(s.play_state.subtitle_stream_index, Some(-1));
    let np = s.now_playing.unwrap();
    assert_eq!(np.item_id, "item-9");
    assert_eq!(np.run_time_ticks, Some(9_000_000_000));
    // The play state's media source is used, and its path found among the sources.
    assert_eq!(np.media_source_id.as_deref(), Some("ms-2"));
    assert_eq!(np.path.as_deref(), Some("/media/b.mkv"));
    assert_eq!(np.media_streams.len(), 3);
    assert_eq!(np.media_streams[0].stream_type, StreamType::Audio);
    assert!(np.media_streams[0].is_default);
    assert!(np.media_streams[1].is_external && np.media_streams[1].is_text_subtitle_stream);
    assert_eq!(np.media_streams[2].stream_type, StreamType::Other);
}

#[test]
fn jellyfin_idle_and_fallback_sessions() {
    let idle = mediabrowser::parse_session(&json(r#"{"Id": "x", "NowPlayingItem": null}"#)).unwrap();
    assert!(idle.now_playing.is_none());
    assert_eq!(idle.client, "Unknown");
    assert!(!idle.supports_remote_control && !idle.play_state.can_seek);
    assert!(idle.play_state.position_ticks.is_none());
    let first_source = mediabrowser::parse_session(&json(
        r#"{"Id": "y", "NowPlayingItem": {"MediaSources": [{"Id": "s1"}, {"Id": "s2", "Path": "/p"}]}}"#,
    ))
    .unwrap();
    let np = first_source.now_playing.unwrap();
    assert_eq!(np.media_source_id.as_deref(), Some("s1"));
    assert!(np.path.is_none());
    assert_eq!(np.item_id, "");
    assert!(mediabrowser::parse_session(&json(r#"{"Client": "TV"}"#)).is_none());
}

#[test]
fn jellyfin_response_lists_sessions_with_ids() {
    let body = json(&format!(r#"[{JELLYFIN_SESSION}, {{"Client": "no id"}}, {{"Id": "z"}}]"#));
    let sessions = mediabrowser::sessions_from_body(&body);
    assert_eq!(sessions.len(), 2);
    assert_eq!(sessions[0].id, "abc");
    assert_eq!(sessions[1].id, "z");
    assert!(mediabrowser::sessions_from_body(&json("{}")).is_empty());
}

#[test]
fn beacon_note_fields_from_strings_and_objects() {
    let plain = note_field_from_value(&json("\"文\""));
    assert_eq!((plain.value.as_str(), plain.order), ("文", 0));
    let full = note_field_from_value(&json(r#"{"value": "v", "order": 3}"#));
    assert_eq!((full.value.as_str(), full.order), ("v", 3));
    let partial = note_field_from_value(&json(r#"{"order": 2, "value": 5}"#));
    assert_eq!((partial.value.as_str(), partial.order), ("", 2));
    let other = note_field_from_value(&json("[1]"));
    assert_eq!((other.value.as_str(), other.order), ("", 0));
}

#[test]
fn beacon_card_ids() {
    assert_eq!(card_id_from_value(&json("12")), Some(12));
    assert_eq!(card_id_from_value(&json(r#"{"cardId": 7}"#)), Some(7));
    assert_eq!(card_id_from_value(&json(r#"{"id": -3}"#)), Some(-3));
    // The first ID member present decides, even when it is not a number.
    assert_eq!(card_id_from_value(&json(r#"{"card_id": "x", "id": 5}"#)), None);
    assert_eq!(card_id_from_value(&json("\"12\"")), None);

    assert_eq!(provided_card_ids(Some(&[1, 2]), None), Some(vec![1, 2]));
    let cards = vec![json(r#"{"id": 4}"#), json("\"x\""), json("9")];
    assert_eq!(provided_card_ids(Some(&[]), Some(&cards)), Some(vec![4, 9]));
    assert_eq!(provided_card_ids(None, Some(&[json("\"x\"")])), None);
    assert_eq!(provided_card_ids(None, None), None);
}

#[test]
fn plex_item_info_lists_parts_as_sources() {
    let body = json(
        r#"{"MediaContainer": {"Metadata": [{
            "ratingKey": "4242", "title": "The Episode",
            "Media": [
                {"Part": [{"id": 10, "file": "/a.mkv"}, {"id": "eleven", "file": "/b.mkv",
                           "Stream": [{"streamType": 3, "index": 4, "codec": "ass"}]}]},
                {"Part": [{"file": "/c.mkv", "Stream": [{"streamType": 2, "index": 1}]}]}
            ]
        }]}}"#,
    );
    let info = plex::item_info_from_body(&body).unwrap();
    assert_eq!(info.id, "4242");
    assert_eq!(info.name, "The Episode");
    assert_eq!(info.path.as_deref(), Some("/a.mkv"));
    let ids: Vec<&str> = info.media_sources.iter().map(|s| s.id.as_str()).collect();
    assert_eq!(ids, vec!["10", "eleven", ""]);
    // The streams of the first part that lists any.
    assert_eq!(info.media_streams.len(), 1);
    assert_eq!(info.media_streams[0].index, 4);
    assert!(info.media_streams[0].is_text_subtitle_stream);
    assert_eq!(info.media_sources[2].media_streams[0].stream_type, StreamType::Audio);
    assert!(plex::item_info_from_body(&json(r#"{"MediaContainer": {"Metadata": []}}"#)).is_none());
}

#[test]
fn jellyfin_item_info_reads_sources() {
    let body = json(
        r#"{"Id": "i", "Name": "Film", "Path": "/film.mkv",
            "MediaStreams": [{"Index": 2, "Type": "Subtitle", "Language": "jpn", "IsTextSubtitleStream": true}],
            "MediaSources": [{"Id": "s", "Path": "/film.mkv", "MediaStreams": [{"Index": 0, "Type": "Video"}]}, {}]}"#,
    );
    let info = mediabrowser::item_info_from_body(&body);
    assert_eq!((info.id.as_str(), info.name.as_str()), ("i", "Film"));
    assert_eq!(info.path.as_deref(), Some("/film.mkv"));
    assert_eq!(info.media_streams[0].language.as_deref(), Some("jpn"));
    assert_eq!(info.media_sources.len(), 2);
    assert_eq!(info.media_sources[0].media_streams[0].stream_type, StreamType::Video);
    assert_eq!(info.media_sources[1].id, "");
    assert!(info.media_sources[1].path.is_none());
}

const PLEX_METADATA: &str = r#"{"MediaContainer": {"Metadata": [{
    "ratingKey": "1",
    "Media": [
        {"Part": [{"id": 10, "key": "/library/parts/10/file.mkv", "file": "/a.mkv",
                   "Stream": [{"streamType": 3, "index": 2, "id": 501, "codec": "srt", "key": "/library/streams/501"}]}]},
        {"Part": [{"id": "11", "file": "/b.mkv",
                   "Stream": [{"streamType": 3, "index": 2, "id": "502", "codec": "ass"},
                              {"streamType": 3, "index": 3, "codec": "pgs"}]}]}
    ]
}]}}"#;

#[test]
fn plex_part_info_finds_the_source_part() {
    let body = json(PLEX_METADATA);
    let (key, file) = plex::part_info_from_body(&body, "10").unwrap();
    assert_eq!(key, "/library/parts/10/file.mkv");
    assert_eq!(file, "/a.mkv");
    assert_eq!(plex::part_info_from_body(&body, "11").err(), Some(plex::PlexLookupError::PartWithoutKey));
    assert_eq!(plex::part_info_from_body(&body, "12").err(), Some(plex::PlexLookupError::PartNotFound));
    assert_eq!(
        plex::part_info_from_body(&json("{}"), "10").err(),
        Some(plex::PlexLookupError::NoMetadata)
    );
}

#[test]
fn plex_subtitle_stream_is_found_by_index_in_the_source() {
    let body = json(PLEX_METADATA);
    let first = plex::subtitle_stream_from_body(&body, "10", 2).ok().unwrap();
    assert_eq!(first.id, 501);
    assert_eq!(first.codec.as_deref(), Some("srt"));
    assert_eq!(first.key.as_deref(), Some("/library/streams/501"));
    let second = plex::subtitle_stream_from_body(&body, "11", 2).ok().unwrap();
    assert_eq!(second.id, 502);
    assert!(second.key.is_none());
    assert_eq!(
        plex::subtitle_stream_from_body(&body, "11", 3).err(),
        Some(plex::PlexLookupError::StreamWithoutId)
    );
    assert_eq!(
        plex::subtitle_stream_from_body(&body, "10", 3).err(),
        Some(plex::PlexLookupError::StreamNotFound)
    );
}

#[test]
fn plex_subtitle_extensions() {
    assert_eq!(plex::subtitle_extension(Some("SubRip"), SubtitleFormat::Vtt), "srt");
    assert_eq!(plex::subtitle_extension(Some("WEBVTT"), SubtitleFormat::Srt), "vtt");
    assert_eq!(plex::subtitle_extension(Some("mov_text"), SubtitleFormat::Vtt), "vtt");
    assert_eq!(plex::subtitle_extension(Some("ASS"), SubtitleFormat::Srt), "ass");
    assert_eq!(plex::subtitle_extension(None, SubtitleFormat::Srt), "srt");
}

#[test]
fn ankiconnect_results() {
    assert_eq!(ids_from_result(&json("[1, \"2\", 3, -4, 1.5]")), vec![1, 3, -4]);
    assert!(ids_from_result(&json("null")).is_empty());

    let notes = notes_from_result(&json(
        r#"[{"noteId": 1700000000000, "modelName": "Mining", "tags": ["a", 5, "b"],
             "fields": {"Sentence": {"value": "文", "order": 0}, "Picture": {"order": 2}}},
            {"noteId": 2, "tags": []},
            {"noteId": 3, "modelName": "Basic"}]"#,
    ));
    assert_eq!(notes.len(), 2);
    assert_eq!(notes[0].note_id, 1_700_000_000_000);
    assert_eq!(notes[0].model_name, "Mining");
    assert_eq!(notes[0].tags, vec!["a", "b"]);
    assert_eq!(notes[0].fields.len(), 2);
    let picture = notes[0].fields.iter().find(|(name, _)| name == "Picture").unwrap();
    assert_eq!((picture.1.value.as_str(), picture.1.order), ("", 2));
    assert_eq!(notes[1].note_id, 3);
    assert!(notes[1].tags.is_empty() && notes[1].fields.is_empty());
}

#[test]
fn only_recent_unknown_notes_are_offered() {
    let now_secs = 1_700_000_000;
    let fresh = 1_700_000_000_000 - 60_000;
    let stale = 1_700_000_000_000 - 301_000;
    let known = 1_700_000_000_000 - 1_000;
    let offered = new_note_ids(&[fresh, stale, known, fresh], &[known], now_secs);
    assert_eq!(offered, vec![fresh]);
    let future = 1_700_000_000_000 + 300_999;
    assert_eq!(new_note_ids(&[future], &[], now_secs), vec![future]);
    assert!(new_note_ids(&[], &[], now_secs).is_empty());
}

#[test]
fn parses_playing_notifications() {
    let payload = r#"{"NotificationContainer":{"type":"playing","size":1,"PlaySessionStateNotification":[{"sessionKey":"29","clientIdentifier":"ytgcp5ywyn8xzsyp6yybukey","guid":"","ratingKey":"144504","url":"","key":"/library/metadata/144504","viewOffset":154000,"state":"playing"}]}}"#;
    let envelope = parse_notification(&json(payload)).unwrap();
    assert_eq!(envelope.kind, "playing");
    assert_eq!(envelope.playing.len(), 1);
    let event = &envelope.playing[0];
    assert_eq!(event.client_identifier, "ytgcp5ywyn8xzsyp6yybukey");
    assert_eq!(event.rating_key, "144504");
    assert_eq!(event.view_offset, Some(154000));
    assert_eq!(event.state, "playing");
}

#[test]
fn only_playing_containers_yield_events() {
    let timeline = r#"{"NotificationContainer":{"type":"timeline","PlaySessionStateNotification":[{"clientIdentifier":"c","ratingKey":"1","state":"paused"}]}}"#;
    assert_eq!(parse_notification(&json(timeline)).unwrap().playing.len(), 1);
    assert!(playing_notifications(&json(timeline)).is_empty());

    let without_list = r#"{"NotificationContainer":{"type":"playing"}}"#;
    assert!(parse_notification(&json(without_list)).unwrap().playing.is_empty());

    let no_offset = r#"{"NotificationContainer":{"type":"playing","PlaySessionStateNotification":[{"clientIdentifier":"c","ratingKey":"1","viewOffset":null,"state":"paused"}]}}"#;
    let events = playing_notifications(&json(no_offset));
    assert_eq!(events.len(), 1);
    assert_eq!(events[0].view_offset, None);
    assert_eq!(events[0].state, "paused");
}

#[test]
fn malformed_notifications_are_ignored() {
    let text_offset = r#"{"NotificationContainer":{"type":"playing","PlaySessionStateNotification":[{"clientIdentifier":"c","ratingKey":"1","viewOffset":"5","state":"paused"}]}}"#;
    assert!(parse_notification(&json(text_offset)).is_none());
    let numeric_key = r#"{"NotificationContainer":{"type":"playing","PlaySessionStateNotification":[{"clientIdentifier":"c","ratingKey":1,"state":"paused"}]}}"#;
    assert!(parse_notification(&json(numeric_key)).is_none());
    assert!(parse_notification(&json(r#"{"NotificationContainer":{"PlaySessionStateNotification":[]}}"#)).is_none());
    assert!(playing_notifications(&json(r#"{"other":1}"#)).is_empty());
}

//! Reading the sessions that an Emby or Jellyfin server reports under
//! `/Sessions`.
use vstd::prelude::*;
use crate::json::{
    array_value, as_bool, as_i64, as_str, as_u64, at, at_key, bool_value, elements, i64_value,
    str_value, str_value_is, text_or, u64_value, value_of, JsonValue,
};
use crate::media_server::{ItemInfo, MediaSource, MediaStream, NowPlaying, PlayState, Session, StreamType};
use crate::text::{opt_view, owned, str_equal};

verus! {

/// The stream type named by a `Type` field.
pub open spec fn mb_stream_type(t: Seq<char>) -> StreamType {
    if t == "Video"@ {
        StreamType::Video
    } else if t == "Audio"@ {
        StreamType::Audio
    } else if t == "Subtitle"@ {
        StreamType::Subtitle
    } else {
        StreamType::Other
    }
}

/// The stream type named by a `Type` field (see [`mb_stream_type`]).
pub fn parse_stream_type(t: &str) -> (r: StreamType)
    ensures
        r == mb_stream_type(t@),
{
    if str_equal(t, "Video") {
        StreamType::Video
    } else if str_equal(t, "Audio") {
        StreamType::Audio
    } else if str_equal(t, "Subtitle") {
        StreamType::Subtitle
    } else {
        StreamType::Other
    }
}

/// Whether a boolean field is present and true.
pub open spec fn flag(o: Option<JsonValue>, key: Seq<char>) -> bool {
    as_bool(at(o, key)) == Some(true)
}

fn flag_exec(o: Option<&JsonValue>, key: &str) -> (r: bool)
    ensures
        r == flag(value_of(o), key@),
{
    match bool_value(at_key(o, key)) {
        Some(b) => b,
        None => false,
    }
}

/// What a stream object of Emby or Jellyfin describes.
pub open spec fn mb_media_stream_is(m: MediaStream, v: JsonValue) -> bool {
    let o = Some(v);
    &&& m.index == (match as_u64(at(o, "Index"@)) {
        Some(n) => n as u32,
        None => 0,
    })
    &&& m.stream_type == mb_stream_type(text_or(as_str(at(o, "Type"@)), ""@))
    &&& opt_view(m.codec) == as_str(at(o, "Codec"@))
    &&& opt_view(m.language) == as_str(at(o, "Language"@))
    &&& opt_view(m.display_title) == as_str(at(o, "DisplayTitle"@))
    &&& m.is_default == flag(o, "IsDefault"@)
    &&& m.is_external == flag(o, "IsExternal"@)
    &&& m.is_text_subtitle_stream == flag(o, "IsTextSubtitleStream"@)
    &&& opt_view(m.title) == as_str(at(o, "Title"@))
}

/// Reads a stream object of Emby or Jellyfin (see [`mb_media_stream_is`]).
pub fn parse_media_stream(v: &JsonValue) -> (r: MediaStream)
    ensures
        mb_media_stream_is(r, *v),
{
    let o = Some(v);
    let index: u64 = match u64_value(at_key(o, "Index")) {
        Some(n) => n,
        None => 0,
    };
    let kind_text = text_or_default(at_key(o, "Type"), "");
    let stream_type = parse_stream_type(kind_text.as_str());
    MediaStream {
        index: index as u32,
        stream_type,
        codec: str_value(at_key(o, "Codec")),
        language: str_value(at_key(o, "Language")),
        display_title: str_value(at_key(o, "DisplayTitle")),
        is_default: flag_exec(o, "IsDefault"),
        is_external: flag_exec(o, "IsExternal"),
        is_text_subtitle_stream: flag_exec(o, "IsTextSubtitleStream"),
        title: str_value(at_key(o, "Title")),
    }
}

/// The media source ID of the playing item: its `MediaSourceId`, else the
/// play state's, else the ID of its first media source.
pub open spec fn mb_media_source_id(npi: JsonValue, play_state: Option<JsonValue>) -> Option<Seq<char>> {
    let n = Some(npi);
    let sources = elements(at(n, "MediaSources"@));
    match as_str(at(n, "MediaSourceId"@)) {
        Some(id) => Some(id),
        None => match as_str(at(play_state, "MediaSourceId"@)) {
            Some(id) => Some(id),
            None => if sources.len() > 0 {
                as_str(at(Some(sources[0]), "Id"@))
            } else {
                None
            },
        },
    }
}

/// The path of the first media source at or after `i` that is the played
/// one (any, when none is named) and has a path.
pub open spec fn source_path(sources: Seq<JsonValue>, target: Option<Seq<char>>, i: int) -> Option<Seq<char>>
    decreases sources.len() - i,
{
    if i < 0 || i >= sources.len() {
        None
    } else {
        let src = Some(sources[i]);
        let matches = match target {
            Some(t) => as_str(at(src, "Id"@)) == Some(t),
            None => true,
        };
        if matches && as_str(at(src, "Path"@)) is Some {
            as_str(at(src, "Path"@))
        } else {
            source_path(sources, target, i + 1)
        }
    }
}

/// What the playing item of a session of Emby or Jellyfin describes.
pub open spec fn mb_now_playing_is(np: NowPlaying, npi: JsonValue, play_state: Option<JsonValue>) -> bool {
    let n = Some(npi);
    let streams = elements(at(n, "MediaStreams"@));
    let source_id = mb_media_source_id(npi, play_state);
    &&& np.item_id@ == text_or(as_str(at(n, "Id"@)), ""@)
    &&& np.name@ == text_or(as_str(at(n, "Name"@)), ""@)
    &&& opt_view(np.series_name) == as_str(at(n, "SeriesName"@))
    &&& np.season_index == (match as_u64(at(n, "ParentIndexNumber"@)) {
        Some(x) => Some(x as u32),
        None => None,
    })
    &&& np.episode_index == (match as_u64(at(n, "IndexNumber"@)) {
        Some(x) => Some(x as u32),
        None => None,
    })
    &&& np.media_type@ == text_or(as_str(at(n, "MediaType"@)), ""@)
    &&& np.run_time_ticks == as_i64(at(n, "RunTimeTicks"@))
    &&& np.media_streams@.len() == streams.len()
    &&& forall|i: int| 0 <= i < streams.len() ==> mb_media_stream_is(#[trigger] np.media_streams@[i], streams[i])
    &&& opt_view(np.media_source_id) == source_id
    &&& opt_view(np.path) == (match as_str(at(n, "Path"@)) {
        Some(p) => Some(p),
        None => source_path(elements(at(n, "MediaSources"@)), source_id, 0),
    })
}

/// What a session object of Emby or Jellyfin describes.
pub open spec fn mb_session_is(s: Session, v: JsonValue) -> bool {
    let o = Some(v);
    let ps = at(o, "PlayState"@);
    &&& as_str(at(o, "Id"@)) == Some(s.id@)
    &&& s.playback_session_id is None
    &&& s.client@ == text_or(as_str(at(o, "Client"@)), "Unknown"@)
    &&& s.device_name@ == text_or(as_str(at(o, "DeviceName"@)), "Unknown"@)
    &&& opt_view(s.user_name) == as_str(at(o, "UserName"@))
    &&& opt_view(s.user_id) == as_str(at(o, "UserId"@))
    &&& s.last_activity_at_ms is None
    &&& s.supports_remote_control == flag(o, "SupportsRemoteControl"@)
    &&& s.play_state.can_seek == flag(ps, "CanSeek"@)
    &&& s.play_state.is_paused == flag(ps, "IsPaused"@)
    &&& s.play_state.position_ticks == as_i64(at(ps, "PositionTicks"@))
    &&& s.play_state.audio_stream_index == (match as_u64(at(ps, "AudioStreamIndex"@)) {
        Some(x) => Some(x as u32),
        None => None,
    })
    &&& s.play_state.subtitle_stream_index == (match as_i64(at(ps, "SubtitleStreamIndex"@)) {
        Some(x) => Some(x as i32),
        None => None,
    })
    &&& match at(o, "NowPlayingItem"@) {
        Some(npi) => if npi is Null {
            s.now_playing is None
        } else {
            s.now_playing is Some && mb_now_playing_is(s.now_playing->0, npi, ps)
        },
        None => s.now_playing is None,
    }
}

fn text_or_default(o: Option<&JsonValue>, default: &str) -> (r: String)
    ensures
        r@ == text_or(as_str(value_of(o)), default@),
{
    match str_value(o) {
        Some(t) => t,
        None => owned(default),
    }
}

fn find_source_path(sources: &Vec<JsonValue>, target: &Option<String>) -> (r: Option<String>)
    ensures
        opt_view(r) == source_path(sources@, opt_view(*target), 0),
{
    let mut k: usize = 0;
    while k < sources.len()
        invariant
            k <= sources@.len(),
            source_path(sources@, opt_view(*target), 0) == source_path(sources@, opt_view(*target), k as int),
        decreases sources.len() - k,
    {
        let src = Some(&sources[k]);
        let matches = match target {
            Some(t) => str_value_is(at_key(src, "Id"), t.as_str()),
            None => true,
        };
        if matches {
            match str_value(at_key(src, "Path")) {
                Some(p) => {
                    return Some(p);
                },
                None => {},
            }
        }
        k += 1;
    }
    None
}

fn parse_now_playing(npi: &JsonValue, play_state: Option<&JsonValue>) -> (r: NowPlaying)
    ensures
        mb_now_playing_is(r, *npi, value_of(play_state)),
{
    let n = Some(npi);
    let mut media_streams: Vec<MediaStream> = Vec::new();
    match array_value(at_key(n, "MediaStreams")) {
        Some(streams) => {
            let mut k: usize = 0;
            while k < streams.len()
                invariant
                    k <= streams@.len(),
                    media_streams@.len() == k,
                    forall|i: int| 0 <= i < k ==> mb_media_stream_is(#[trigger] media_streams@[i], streams@[i]),
                decreases streams.len() - k,
            {
                media_streams.push(parse_media_stream(&streams[k]));
                k += 1;
            }
        },
        None => {},
    }
    let media_source_id = match str_value(at_key(n, "MediaSourceId")) {
        Some(id) => Some(id),
        None => match str_value(at_key(play_state, "MediaSourceId")) {
            Some(id) => Some(id),
            None => match array_value(at_key(n, "MediaSources")) {
                Some(sources) => if sources.len() > 0 {
                    str_value(at_key(Some(&sources[0]), "Id"))
                } else {
                    None
                },
                None => None,
            },
        },
    };
    let path = match str_value(at_key(n, "Path")) {
        Some(p) => Some(p),
        None => match array_value(at_key(n, "MediaSources")) {
            Some(sources) => find_source_path(sources, &media_source_id),
            None => None,
        },
    };
    proof {
        reveal_strlit("");
    }
    NowPlaying {
        item_id: text_or_default(at_key(n, "Id"), ""),
        name: text_or_default(at_key(n, "Name"), ""),
        series_name: str_value(at_key(n, "SeriesName")),
        season_index: match u64_value(at_key(n, "ParentIndexNumber")) {
            Some(x) => Some(x as u32),
            None => None,
        },
        episode_index: match u64_value(at_key(n, "IndexNumber")) {
            Some(x) => Some(x as u32),
            None => None,
        },
        media_type: text_or_default(at_key(n, "MediaType"), ""),
        run_time_ticks: i64_value(at_key(n, "RunTimeTicks")),
        media_streams,
        media_source_id,
        path,
    }
}

/// Reads a session object of Emby or Jellyfin (see [`mb_session_is`]);
/// none when it has no `Id`.
pub fn parse_session(v: &JsonValue) -> (r: Option<Session>)
    ensures
        match r {
            Some(s) => mb_session_is(s, *v),
            None => as_str(at(Some(*v), "Id"@)) is None,
        },
{
    let o = Some(v);
    let id = match str_value(at_key(o, "Id")) {
        Some(id) => id,
        None => {
            return None;
        },
    };
    let ps = at_key(o, "PlayState");
    let now_playing = match at_key(o, "NowPlayingItem") {
        Some(npi) => match npi {
            JsonValue::Null => None,
            _ => Some(parse_now_playing(npi, ps)),
        },
        None => None,
    };
    Some(Session {
        id,
        playback_session_id: None,
        client: text_or_default(at_key(o, "Client"), "Unknown"),
        device_name: text_or_default(at_key(o, "DeviceName"), "Unknown"),
        user_name: str_value(at_key(o, "UserName")),
        user_id: str_value(at_key(o, "UserId")),
        last_activity_at_ms: None,
        now_playing,
        play_state: PlayState {
            can_seek: flag_exec(ps, "CanSeek"),
            is_paused: flag_exec(ps, "IsPaused"),
            position_ticks: i64_value(at_key(ps, "PositionTicks")),
            audio_stream_index: match u64_value(at_key(ps, "AudioStreamIndex")) {
                Some(x) => Some(x as u32),
                None => None,
            },
            subtitle_stream_index: match i64_value(at_key(ps, "SubtitleStreamIndex")) {
                Some(x) => Some(x as i32),
                None => None,
            },
        },
        supports_remote_control: flag_exec(o, "SupportsRemoteControl"),
    })
}

/// The elements that describe a session: those with an `Id`.
pub open spec fn session_elements(elems: Seq<JsonValue>) -> Seq<JsonValue>
    decreases elems.len(),
{
    if elems.len() == 0 {
        Seq::empty()
    } else {
        let e = elems.last();
        if as_str(at(Some(e), "Id"@)) is Some {
            session_elements(elems.drop_last()).push(e)
        } else {
            session_elements(elems.drop_last())
        }
    }
}

/// The sessions of a `/Sessions` response: each element with an `Id`, in order.
pub fn sessions_from_body(body: &JsonValue) -> (r: Vec<Session>)
    ensures
        ({
            let found = session_elements(elements(Some(*body)));
            &&& r@.len() == found.len()
            &&& forall|i: int| 0 <= i < r@.len() ==> mb_session_is(#[trigger] r@[i], found[i])
        }),
{
    let mut r: Vec<Session> = Vec::new();
    let elems = match array_value(Some(body)) {
        Some(a) => a,
        None => {
            return r;
        },
    };
    let mut k: usize = 0;
    while k < elems.len()
        invariant
            k <= elems@.len(),
            elems@ == elements(Some(*body)),
            r@.len() == session_elements(elems@.take(k as int)).len(),
            forall|i: int| 0 <= i < r@.len() ==> mb_session_is(#[trigger] r@[i], session_elements(elems@.take(k as int))[i]),
        decreases elems.len() - k,
    {
        assert(elems@.take(k + 1).drop_last() =~= elems@.take(k as int));
        assert(elems@.take(k + 1).last() == elems@[k as int]);
        match parse_session(&elems[k]) {
            Some(s) => {
                r.push(s);
            },
            None => {},
        }
        k += 1;
    }
    assert(elems@.take(elems@.len() as int) =~= elems@);
    r
}

/// Whether `m` lists the streams of the stream objects `vs`, in order.
pub open spec fn mb_streams_are(m: Seq<MediaStream>, vs: Seq<JsonValue>) -> bool {
    &&& m.len() == vs.len()
    &&& forall|i: int| 0 <= i < vs.len() ==> mb_media_stream_is(#[trigger] m[i], vs[i])
}

fn parse_streams(o: Option<&JsonValue>) -> (r: Vec<MediaStream>)
    ensures
        mb_streams_are(r@, elements(value_of(o))),
{
    let mut out: Vec<MediaStream> = Vec::new();
    match array_value(o) {
        Some(streams) => {
            let mut k: usize = 0;
            while k < streams.len()
                invariant
                    k <= streams@.len(),
                    out@.len() == k,
                    forall|i: int| 0 <= i < k ==> mb_media_stream_is(#[trigger] out@[i], streams@[i]),
                decreases streams.len() - k,
            {
                out.push(parse_media_stream(&streams[k]));
                k += 1;
            }
        },
        None => {},
    }
    out
}

/// What a media source object of Emby or Jellyfin describes.
pub open spec fn mb_media_source_is(m: MediaSource, v: JsonValue) -> bool {
    let o = Some(v);
    &&& m.id@ == text_or(as_str(at(o, "Id"@)), ""@)
    &&& opt_view(m.path) == as_str(at(o, "Path"@))
    &&& mb_streams_are(m.media_streams@, elements(at(o, "MediaStreams"@)))
}

/// What an `/Items/{id}` response of Emby or Jellyfin describes.
pub open spec fn mb_item_info_is(info: ItemInfo, v: JsonValue) -> bool {
    let o = Some(v);
    let sources = elements(at(o, "MediaSources"@));
    &&& info.id@ == text_or(as_str(at(o, "Id"@)), ""@)
    &&& info.name@ == text_or(as_str(at(o, "Name"@)), ""@)
    &&& opt_view(info.path) == as_str(at(o, "Path"@))
    &&& mb_streams_are(info.media_streams@, elements(at(o, "MediaStreams"@)))
    &&& info.media_sources@.len() == sources.len()
    &&& forall|i: int| 0 <= i < sources.len() ==> mb_media_source_is(#[trigger] info.media_sources@[i], sources[i])
}

/// Reads an `/Items/{id}` response of Emby or Jellyfin (see
/// [`mb_item_info_is`]).
pub fn item_info_from_body(v: &JsonValue) -> (r: ItemInfo)
    ensures
        mb_item_info_is(r, *v),
{
    let o = Some(v);
    let mut media_sources: Vec<MediaSource> = Vec::new();
    match array_value(at_key(o, "MediaSources")) {
        Some(sources) => {
            let mut k: usize = 0;
            while k < sources.len()
                invariant
                    k <= sources@.len(),
                    media_sources@.len() == k,
                    forall|i: int| 0 <= i < k ==> mb_media_source_is(#[trigger] media_sources@[i], sources@[i]),
                decreases sources.len() - k,
            {
                let src = Some(&sources[k]);
                proof {
                    reveal_strlit("");
                }
                media_sources.push(MediaSource {
                    id: text_or_default(at_key(src, "Id"), ""),
                    path: str_value(at_key(src, "Path")),
                    media_streams: parse_streams(at_key(src, "MediaStreams")),
                });
                k += 1;
            }
        },
        None => {},
    }
    proof {
        reveal_strlit("");
    }
    ItemInfo {
        id: text_or_default(at_key(o, "Id"), ""),
        name: text_or_default(at_key(o, "Name"), ""),
        path: str_value(at_key(o, "Path")),
        media_streams: parse_streams(at_key(o, "MediaStreams")),
        media_sources,
    }
}

} // verus!

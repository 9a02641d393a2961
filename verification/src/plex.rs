//! Reading the sessions that a Plex server reports under `/status/sessions`.
use vstd::prelude::*;
use crate::json::{
    array_value, as_bool, as_i64, as_str, as_u64, at, at_key, bool_value, elements,
    i64_value, str_value, str_value_is, text_or, u64_value, value_of, JsonValue,
};
use crate::media_server::{ItemInfo, MediaSource, MediaStream, NowPlaying, PlayState, Session, StreamType, SubtitleFormat};
use crate::text::{
    chars_of, chars_are, decimal_digits, lower_chars, lower_seq, opt_view, owned, parse_u64, parse_u64_spec,
    str_equal, string_of, trim, trim_chars, u64_digits,
};

verus! {

/// The stream type of a Plex `streamType` code.
pub open spec fn plex_stream_type(code: u64) -> StreamType {
    if code == 1 {
        StreamType::Video
    } else if code == 2 {
        StreamType::Audio
    } else if code == 3 {
        StreamType::Subtitle
    } else {
        StreamType::Other
    }
}

/// The stream type of a Plex `streamType` code (see [`plex_stream_type`]).
pub fn parse_stream_type(code: u64) -> (r: StreamType)
    ensures
        r == plex_stream_type(code),
{
    if code == 1 {
        StreamType::Video
    } else if code == 2 {
        StreamType::Audio
    } else if code == 3 {
        StreamType::Subtitle
    } else {
        StreamType::Other
    }
}

/// A number, or a string holding one, read as `u64`.
pub open spec fn lenient_u64(o: Option<JsonValue>) -> Option<u64> {
    match as_u64(o) {
        Some(n) => Some(n),
        None => match as_str(o) {
            Some(t) => parse_u64_spec(t),
            None => None,
        },
    }
}

/// A number, or a string holding one, read as `u64` (see [`lenient_u64`]).
pub fn value_as_u64(o: Option<&JsonValue>) -> (r: Option<u64>)
    ensures
        r == lenient_u64(value_of(o)),
{
    match u64_value(o) {
        Some(n) => Some(n),
        None => match str_value(o) {
            Some(t) => parse_u64(&chars_of(t.as_str())),
            None => None,
        },
    }
}

/// The index by which a stream is addressed: its `index`, else its `id`,
/// else 0, truncated to `u32`.
pub open spec fn lookup_index(o: Option<JsonValue>) -> u32 {
    (match lenient_u64(at(o, "index"@)) {
        Some(n) => n,
        None => match lenient_u64(at(o, "id"@)) {
            Some(n) => n,
            None => 0,
        },
    }) as u32
}

/// The index by which a stream is addressed (see [`lookup_index`]).
pub fn stream_lookup_index(o: Option<&JsonValue>) -> (r: u32)
    ensures
        r == lookup_index(value_of(o)),
{
    let n: u64 = match value_as_u64(at_key(o, "index")) {
        Some(n) => n,
        None => match value_as_u64(at_key(o, "id")) {
            Some(n) => n,
            None => 0,
        },
    };
    n as u32
}

/// The subtitle codecs that Plex delivers as text.
pub open spec fn plex_text_codec(c: Seq<char>) -> bool {
    c == "srt"@ || c == "subrip"@ || c == "ass"@ || c == "ssa"@ || c == "vtt"@ || c == "webvtt"@
        || c == "mov_text"@ || c == "text"@
}

/// The stream type of a Plex stream object.
pub open spec fn stream_type_of(o: Option<JsonValue>) -> StreamType {
    plex_stream_type(
        match as_u64(at(o, "streamType"@)) {
            Some(n) => n,
            None => 0,
        },
    )
}

/// What a stream object of Plex describes.
pub open spec fn plex_media_stream_is(m: MediaStream, v: JsonValue) -> bool {
    let o = Some(v);
    let st = stream_type_of(o);
    &&& m.index == lookup_index(o)
    &&& m.stream_type == st
    &&& opt_view(m.codec) == as_str(at(o, "codec"@))
    &&& opt_view(m.language) == as_str(at(o, "languageCode"@))
    &&& opt_view(m.display_title) == as_str(at(o, "displayTitle"@))
    &&& m.is_default == (as_bool(at(o, "default"@)) == Some(true))
    &&& m.is_external == (st == StreamType::Subtitle && text_or(as_str(at(o, "key"@)), ""@).len() > 0)
    &&& m.is_text_subtitle_stream == (st == StreamType::Subtitle && plex_text_codec(
        text_or(as_str(at(o, "codec"@)), ""@),
    ))
    &&& opt_view(m.title) == as_str(at(o, "title"@))
}

fn is_text_codec(codec: Option<&JsonValue>) -> (r: bool)
    ensures
        r == plex_text_codec(text_or(as_str(value_of(codec)), ""@)),
{
    let c = match str_value(codec) {
        Some(c) => c,
        None => owned(""),
    };
    proof {
        reveal_strlit("");
    }
    let t = c.as_str();
    str_equal(t, "srt") || str_equal(t, "subrip") || str_equal(t, "ass") || str_equal(t, "ssa")
        || str_equal(t, "vtt") || str_equal(t, "webvtt") || str_equal(t, "mov_text") || str_equal(
        t,
        "text",
    )
}

/// Reads a stream object of Plex (see [`plex_media_stream_is`]).
pub fn parse_media_stream(v: &JsonValue) -> (r: MediaStream)
    ensures
        plex_media_stream_is(r, *v),
{
    let o = Some(v);
    let code = match u64_value(at_key(o, "streamType")) {
        Some(n) => n,
        None => 0,
    };
    let stream_type = parse_stream_type(code);
    let is_subtitle = match stream_type {
        StreamType::Subtitle => true,
        _ => false,
    };
    let is_text_subtitle = is_subtitle && is_text_codec(at_key(o, "codec"));
    let has_key = match str_value(at_key(o, "key")) {
        Some(k) => !k.as_str().is_empty(),
        None => false,
    };
    proof {
        reveal_strlit("");
    }
    MediaStream {
        index: stream_lookup_index(o),
        stream_type,
        codec: str_value(at_key(o, "codec")),
        language: str_value(at_key(o, "languageCode")),
        display_title: str_value(at_key(o, "displayTitle")),
        is_default: match bool_value(at_key(o, "default")) {
            Some(b) => b,
            None => false,
        },
        is_external: is_subtitle && has_key,
        is_text_subtitle_stream: is_text_subtitle,
        title: str_value(at_key(o, "title")),
    }
}

/// The selected audio stream and subtitle stream seen so far.
pub type SelectedStreams = (Option<u32>, Option<i32>);

/// One stream considered: a selected audio (type 2) or subtitle (type 3)
/// stream replaces the earlier one.
pub open spec fn select_step(acc: SelectedStreams, s: JsonValue) -> SelectedStreams {
    let o = Some(s);
    let code = match as_u64(at(o, "streamType"@)) {
        Some(n) => n,
        None => 0,
    };
    let selected = as_bool(at(o, "selected"@)) == Some(true);
    let idx = lookup_index(o);
    (
        if code == 2 && selected {
            Some(idx)
        } else {
            acc.0
        },
        if code == 3 && selected {
            Some(idx as i32)
        } else {
            acc.1
        },
    )
}

/// The streams considered in order.
pub open spec fn scan_streams(acc: SelectedStreams, streams: Seq<JsonValue>) -> SelectedStreams
    decreases streams.len(),
{
    if streams.len() == 0 {
        acc
    } else {
        select_step(scan_streams(acc, streams.drop_last()), streams.last())
    }
}

/// The streams of each part considered in order.
pub open spec fn scan_parts(acc: SelectedStreams, parts: Seq<JsonValue>) -> SelectedStreams
    decreases parts.len(),
{
    if parts.len() == 0 {
        acc
    } else {
        scan_streams(scan_parts(acc, parts.drop_last()), elements(at(Some(parts.last()), "Stream"@)))
    }
}

/// The streams of each part of each media considered in order.
pub open spec fn scan_media(acc: SelectedStreams, media: Seq<JsonValue>) -> SelectedStreams
    decreases media.len(),
{
    if media.len() == 0 {
        acc
    } else {
        scan_parts(scan_media(acc, media.drop_last()), elements(at(Some(media.last()), "Part"@)))
    }
}

/// The selected audio and subtitle streams of a session: the last selected
/// one of each type over all streams of all parts of all media.
pub open spec fn selected_streams(v: JsonValue) -> SelectedStreams {
    scan_media((None, None), elements(at(Some(v), "Media"@)))
}

fn scan_stream_list(acc: SelectedStreams, streams: &Vec<JsonValue>) -> (r: SelectedStreams)
    ensures
        r == scan_streams(acc, streams@),
{
    let mut cur = acc;
    let mut k: usize = 0;
    while k < streams.len()
        invariant
            k <= streams@.len(),
            cur == scan_streams(acc, streams@.take(k as int)),
        decreases streams.len() - k,
    {
        assert(streams@.take(k + 1).drop_last() =~= streams@.take(k as int));
        let s = Some(&streams[k]);
        let code = match u64_value(at_key(s, "streamType")) {
            Some(n) => n,
            None => 0,
        };
        let selected = match bool_value(at_key(s, "selected")) {
            Some(b) => b,
            None => false,
        };
        let idx = stream_lookup_index(s);
        if code == 2 && selected {
            cur = (Some(idx), cur.1);
        }
        if code == 3 && selected {
            cur = (cur.0, Some(idx as i32));
        }
        k += 1;
    }
    assert(streams@.take(streams@.len() as int) =~= streams@);
    cur
}

fn scan_part_list(acc: SelectedStreams, parts: &Vec<JsonValue>) -> (r: SelectedStreams)
    ensures
        r == scan_parts(acc, parts@),
{
    let mut cur = acc;
    let mut k: usize = 0;
    while k < parts.len()
        invariant
            k <= parts@.len(),
            cur == scan_parts(acc, parts@.take(k as int)),
        decreases parts.len() - k,
    {
        assert(parts@.take(k + 1).drop_last() =~= parts@.take(k as int));
        match array_value(at_key(Some(&parts[k]), "Stream")) {
            Some(streams) => {
                cur = scan_stream_list(cur, streams);
            },
            None => {
                assert(elements(at(Some(parts@[k as int]), "Stream"@)) =~= Seq::<JsonValue>::empty());
            },
        }
        k += 1;
    }
    assert(parts@.take(parts@.len() as int) =~= parts@);
    cur
}

fn selected_stream_indices(v: &JsonValue) -> (r: SelectedStreams)
    ensures
        r == selected_streams(*v),
{
    let mut cur: SelectedStreams = (None, None);
    let media = match array_value(at_key(Some(v), "Media")) {
        Some(m) => m,
        None => {
            assert(elements(at(Some(*v), "Media"@)) =~= Seq::<JsonValue>::empty());
            return cur;
        },
    };
    let mut k: usize = 0;
    while k < media.len()
        invariant
            k <= media@.len(),
            cur == scan_media((None, None), media@.take(k as int)),
        decreases media.len() - k,
    {
        assert(media@.take(k + 1).drop_last() =~= media@.take(k as int));
        match array_value(at_key(Some(&media[k]), "Part")) {
            Some(parts) => {
                cur = scan_part_list(cur, parts);
            },
            None => {
                assert(elements(at(Some(media@[k as int]), "Part"@)) =~= Seq::<JsonValue>::empty());
            },
        }
        k += 1;
    }
    assert(media@.take(media@.len() as int) =~= media@);
    cur
}

/// The first media at or after `i` marked selected.
pub open spec fn first_selected(media: Seq<JsonValue>, i: int) -> Option<int>
    decreases media.len() - i,
{
    if i < 0 || i >= media.len() {
        None
    } else if as_bool(at(Some(media[i]), "selected"@)) == Some(true) {
        Some(i)
    } else {
        first_selected(media, i + 1)
    }
}

/// The media whose file is played: the selected one, else the first.
pub open spec fn chosen_media(v: JsonValue) -> Option<JsonValue> {
    let media = elements(at(Some(v), "Media"@));
    match first_selected(media, 0) {
        Some(k) => Some(media[k]),
        None => if media.len() > 0 {
            Some(media[0])
        } else {
            None
        },
    }
}

/// The first part of the played media.
pub open spec fn chosen_part(v: JsonValue) -> Option<JsonValue> {
    match chosen_media(v) {
        Some(m) => {
            let parts = elements(at(Some(m), "Part"@));
            if parts.len() > 0 {
                Some(parts[0])
            } else {
                None
            }
        },
        None => None,
    }
}

fn first_selected_index(media: &Vec<JsonValue>) -> (r: Option<usize>)
    ensures
        match r {
            Some(k) => first_selected(media@, 0) == Some(k as int) && k < media@.len(),
            None => first_selected(media@, 0) is None,
        },
{
    let mut k: usize = 0;
    while k < media.len()
        invariant
            k <= media@.len(),
            first_selected(media@, 0) == first_selected(media@, k as int),
        decreases media.len() - k,
    {
        if match bool_value(at_key(Some(&media[k]), "selected")) {
            Some(b) => b,
            None => false,
        } {
            return Some(k);
        }
        k += 1;
    }
    None
}

fn chosen_part_of(v: &JsonValue) -> (r: Option<&JsonValue>)
    ensures
        value_of(r) == chosen_part(*v),
{
    let media = match array_value(at_key(Some(v), "Media")) {
        Some(m) => m,
        None => {
            return None;
        },
    };
    let chosen: Option<&JsonValue> = match first_selected_index(media) {
        Some(k) => Some(&media[k]),
        None => if media.len() > 0 {
            Some(&media[0])
        } else {
            None
        },
    };
    assert(value_of(chosen) == chosen_media(*v));
    match array_value(at_key(chosen, "Part")) {
        Some(parts) => {
            if parts.len() > 0 {
                Some(&parts[0])
            } else {
                None
            }
        },
        None => None,
    }
}

/// The playing item of a session object whose `ratingKey` is not empty.
pub open spec fn plex_now_playing_is(np: NowPlaying, v: JsonValue) -> bool {
    let o = Some(v);
    let part = chosen_part(v);
    let streams = elements(at(part, "Stream"@));
    let duration_ms = match as_i64(at(o, "duration"@)) {
        Some(d) => d,
        None => 0,
    };
    &&& np.item_id@ == text_or(as_str(at(o, "ratingKey"@)), ""@)
    &&& np.name@ == text_or(as_str(at(o, "title"@)), ""@)
    &&& opt_view(np.series_name) == as_str(at(o, "grandparentTitle"@))
    &&& np.season_index == (match as_u64(at(o, "parentIndex"@)) {
        Some(n) => Some(n as u32),
        None => None,
    })
    &&& np.episode_index == (match as_u64(at(o, "index"@)) {
        Some(n) => Some(n as u32),
        None => None,
    })
    &&& np.media_type@ == text_or(as_str(at(o, "type"@)), "video"@)
    &&& np.run_time_ticks == Some(duration_ms.wrapping_mul(10_000))
    &&& np.media_streams@.len() == streams.len()
    &&& forall|i: int| 0 <= i < streams.len() ==> plex_media_stream_is(#[trigger] np.media_streams@[i], streams[i])
    &&& opt_view(np.media_source_id) == (match lenient_u64(at(part, "id"@)) {
        Some(n) => Some(decimal_digits(n as nat)),
        None => None,
    })
    &&& opt_view(np.path) == as_str(at(part, "file"@))
}

/// What a session object of Plex describes. The session ID is the player's
/// machine identifier; the position and duration, in milliseconds, become
/// ticks of 100 ns (in wrapping `i64`).
pub open spec fn plex_session_is(s: Session, v: JsonValue) -> bool {
    let o = Some(v);
    let player = at(o, "Player"@);
    let client = text_or(as_str(at(player, "product"@)), "Unknown"@);
    let device = match as_str(at(player, "title"@)) {
        Some(t) => t,
        None => text_or(as_str(at(player, "device"@)), "Unknown"@),
    };
    let user = at(o, "User"@);
    let view_offset = match as_i64(at(o, "viewOffset"@)) {
        Some(x) => x,
        None => 0,
    };
    let item_id = text_or(as_str(at(o, "ratingKey"@)), ""@);
    let sel = selected_streams(v);
    &&& as_str(at(player, "machineIdentifier"@)) == Some(s.id@)
    &&& s.playback_session_id is None
    &&& s.client@ == client
    &&& s.device_name@ == device
    &&& opt_view(s.user_name) == as_str(at(user, "title"@))
    &&& opt_view(s.user_id) == (match as_u64(at(user, "id"@)) {
        Some(n) => Some(decimal_digits(n as nat)),
        None => None,
    })
    &&& s.last_activity_at_ms is None
    &&& s.supports_remote_control == (client != "Plex Web"@)
    &&& s.play_state.can_seek
    &&& s.play_state.is_paused == (text_or(as_str(at(player, "state"@)), "stopped"@) == "paused"@)
    &&& s.play_state.position_ticks == Some(view_offset.wrapping_mul(10_000))
    &&& s.play_state.audio_stream_index == sel.0
    &&& s.play_state.subtitle_stream_index == sel.1
    &&& if item_id.len() == 0 {
        s.now_playing is None
    } else {
        s.now_playing is Some && plex_now_playing_is(s.now_playing->0, v)
    }
}

fn text_or_default(o: Option<&JsonValue>, default: &str) -> (r: String)
    ensures
        r@ == text_or(as_str(value_of(o)), default@),
{
    match str_value(o) {
        Some(t) => t,
        None => owned(default),
    }
}

fn digits_text(n: Option<u64>) -> (r: Option<String>)
    ensures
        opt_view(r) == (match n {
            Some(x) => Some(decimal_digits(x as nat)),
            None => None,
        }),
{
    match n {
        Some(x) => Some(string_of(&u64_digits(x))),
        None => None,
    }
}

fn parse_now_playing(v: &JsonValue, item_id: String) -> (r: NowPlaying)
    requires
        item_id@ == text_or(as_str(at(Some(*v), "ratingKey"@)), ""@),
    ensures
        plex_now_playing_is(r, *v),
{
    let o = Some(v);
    let part = chosen_part_of(v);
    let mut media_streams: Vec<MediaStream> = Vec::new();
    match array_value(at_key(part, "Stream")) {
        Some(streams) => {
            let mut k: usize = 0;
            while k < streams.len()
                invariant
                    k <= streams@.len(),
                    media_streams@.len() == k,
                    forall|i: int| 0 <= i < k ==> plex_media_stream_is(#[trigger] media_streams@[i], streams@[i]),
                decreases streams.len() - k,
            {
                media_streams.push(parse_media_stream(&streams[k]));
                k += 1;
            }
        },
        None => {},
    }
    let duration_ms: i64 = match i64_value(at_key(o, "duration")) {
        Some(d) => d,
        None => 0,
    };
    proof {
        reveal_strlit("");
    }
    NowPlaying {
        item_id,
        name: text_or_default(at_key(o, "title"), ""),
        series_name: str_value(at_key(o, "grandparentTitle")),
        season_index: match u64_value(at_key(o, "parentIndex")) {
            Some(n) => Some(n as u32),
            None => None,
        },
        episode_index: match u64_value(at_key(o, "index")) {
            Some(n) => Some(n as u32),
            None => None,
        },
        media_type: text_or_default(at_key(o, "type"), "video"),
        run_time_ticks: Some(duration_ms.wrapping_mul(10_000)),
        media_streams,
        media_source_id: digits_text(value_as_u64(at_key(part, "id"))),
        path: str_value(at_key(part, "file")),
    }
}

/// Reads a session object of Plex (see [`plex_session_is`]); none when the
/// player has no machine identifier.
pub fn parse_session(v: &JsonValue) -> (r: Option<Session>)
    ensures
        match r {
            Some(s) => plex_session_is(s, *v),
            None => as_str(at(at(Some(*v), "Player"@), "machineIdentifier"@)) is None,
        },
{
    let o = Some(v);
    let player = at_key(o, "Player");
    let id = match str_value(at_key(player, "machineIdentifier")) {
        Some(id) => id,
        None => {
            return None;
        },
    };
    let client = text_or_default(at_key(player, "product"), "Unknown");
    let device_name = match str_value(at_key(player, "title")) {
        Some(t) => t,
        None => text_or_default(at_key(player, "device"), "Unknown"),
    };
    let user = at_key(o, "User");
    let supports_remote_control = !str_equal(client.as_str(), "Plex Web");
    let state = text_or_default(at_key(player, "state"), "stopped");
    let is_paused = str_equal(state.as_str(), "paused");
    let view_offset_ms: i64 = match i64_value(at_key(o, "viewOffset")) {
        Some(x) => x,
        None => 0,
    };
    let selected = selected_stream_indices(v);
    let item_id = text_or_default(at_key(o, "ratingKey"), "");
    proof {
        reveal_strlit("");
    }
    let now_playing = if item_id.as_str().is_empty() {
        None
    } else {
        Some(parse_now_playing(v, item_id))
    };
    Some(Session {
        id,
        playback_session_id: None,
        client,
        device_name,
        user_name: str_value(at_key(user, "title")),
        user_id: digits_text(u64_value(at_key(user, "id"))),
        last_activity_at_ms: None,
        now_playing,
        play_state: PlayState {
            can_seek: true,
            is_paused,
            position_ticks: Some(view_offset_ms.wrapping_mul(10_000)),
            audio_stream_index: selected.0,
            subtitle_stream_index: selected.1,
        },
        supports_remote_control,
    })
}

/// The elements that describe a session: those with a player machine identifier.
pub open spec fn session_elements(elems: Seq<JsonValue>) -> Seq<JsonValue>
    decreases elems.len(),
{
    if elems.len() == 0 {
        Seq::empty()
    } else {
        let e = elems.last();
        if as_str(at(at(Some(e), "Player"@), "machineIdentifier"@)) is Some {
            session_elements(elems.drop_last()).push(e)
        } else {
            session_elements(elems.drop_last())
        }
    }
}

/// The sessions of a `/status/sessions` response (`MediaContainer.Metadata`): each element whose player has a machine identifier, in order.
pub fn sessions_from_body(body: &JsonValue) -> (r: Vec<Session>)
    ensures
        ({
            let found = session_elements(elements(at(at(Some(*body), "MediaContainer"@), "Metadata"@)));
            &&& r@.len() == found.len()
            &&& forall|i: int| 0 <= i < r@.len() ==> plex_session_is(#[trigger] r@[i], found[i])
        }),
{
    let mut r: Vec<Session> = Vec::new();
    let elems = match array_value(at_key(at_key(Some(body), "MediaContainer"), "Metadata")) {
        Some(a) => a,
        None => {
            return r;
        },
    };
    let mut k: usize = 0;
    while k < elems.len()
        invariant
            k <= elems@.len(),
            elems@ == elements(at(at(Some(*body), "MediaContainer"@), "Metadata"@)),
            r@.len() == session_elements(elems@.take(k as int)).len(),
            forall|i: int| 0 <= i < r@.len() ==> plex_session_is(#[trigger] r@[i], session_elements(elems@.take(k as int))[i]),
        decreases elems.len() - k,
    {
        assert(elems@.take(k + 1).drop_last() =~= elems@.take(k as int));
        assert(elems@.take(k + 1).last() == elems@[k as int]);
        match parse_session(&elems[k]) {
            Some(s) => {
                r.push(s);
            },
            None => {},
        }
        k += 1;
    }
    assert(elems@.take(elems@.len() as int) =~= elems@);
    r
}

/// How to address a Plex player for remote commands: the identifiers to try
/// and the player's network address.
pub struct SessionControlInfo {
    pub identifiers: Vec<String>,
    pub player_address: Option<String>,
}

/// The texts of a list of strings.
pub open spec fn texts(v: Seq<String>) -> Seq<Seq<char>> {
    v.map_values(|s: String| s@)
}

/// `values` with the trimmed candidate added, unless it is empty or already
/// listed.
pub open spec fn push_unique_spec(values: Seq<Seq<char>>, candidate: Option<Seq<char>>) -> Seq<Seq<char>> {
    match candidate {
        Some(c) => {
            let t = trim(c);
            if t.len() > 0 && !values.contains(t) {
                values.push(t)
            } else {
                values
            }
        },
        None => values,
    }
}

/// Adds the trimmed candidate to `values` unless it is empty or already
/// listed (see [`push_unique_spec`]).
pub fn push_unique(values: &mut Vec<String>, candidate: Option<String>)
    ensures
        texts(final(values)@) == push_unique_spec(texts(old(values)@), opt_view(candidate)),
{
    let c = match &candidate {
        Some(c) => c,
        None => {
            return;
        },
    };
    let t = string_of(&trim_chars(&chars_of(c.as_str())));
    if t.as_str().is_empty() {
        return;
    }
    let ghost before = texts(values@);
    let mut k: usize = 0;
    while k < values.len()
        invariant
            k <= values@.len(),
            before == texts(values@),
            before == texts(old(values)@),
            opt_view(candidate) == Some(c@),
            t@ == trim(c@),
            forall|j: int| 0 <= j < k ==> (#[trigger] values@[j])@ != t@,
        decreases values.len() - k,
    {
        if str_equal(values[k].as_str(), t.as_str()) {
            assert(before[k as int] == t@);
            assert(before.contains(t@));
            return;
        }
        k += 1;
    }
    assert(!before.contains(t@)) by {
        if before.contains(t@) {
            let j = choose|j: int| 0 <= j < before.len() && before[j] == t@;
            assert(values@[j]@ == t@);
        }
    }
    values.push(t);
    assert(texts(values@) =~= before.push(t@));
}

/// The first session at or after `i` whose player is `id`.
pub open spec fn player_index(sessions: Seq<JsonValue>, id: Seq<char>, i: int) -> Option<int>
    decreases sessions.len() - i,
{
    if i < 0 || i >= sessions.len() {
        None
    } else if as_str(at(at(Some(sessions[i]), "Player"@), "machineIdentifier"@)) == Some(id) {
        Some(i)
    } else {
        player_index(sessions, id, i + 1)
    }
}

/// The identifiers and address by which the player `session_id` is reached:
/// the ID itself, then, from the first session of the response whose player
/// it is, the machine identifier, session ID, playback session ID, playback
/// ID and session key (each trimmed, once), and the player's address.
pub open spec fn control_info(body: JsonValue, session_id: Seq<char>) -> (Seq<Seq<char>>, Option<Seq<char>>) {
    let sessions = elements(at(at(Some(body), "MediaContainer"@), "Metadata"@));
    let base = seq![session_id];
    match player_index(sessions, session_id, 0) {
        Some(k) => {
            let s = Some(sessions[k]);
            let player = at(s, "Player"@);
            let ids = push_unique_spec(
                push_unique_spec(
                    push_unique_spec(
                        push_unique_spec(
                            push_unique_spec(base, as_str(at(player, "machineIdentifier"@))),
                            as_str(at(at(s, "Session"@), "id"@)),
                        ),
                        as_str(at(player, "playbackSessionId"@)),
                    ),
                    as_str(at(player, "playbackId"@)),
                ),
                match as_u64(at(s, "sessionKey"@)) {
                    Some(n) => Some(decimal_digits(n as nat)),
                    None => None,
                },
            );
            (ids, as_str(at(player, "address"@)))
        },
        None => (base, None),
    }
}

/// How to reach the player `session_id`, from a `/status/sessions` response
/// (see [`control_info`]).
pub fn session_control_info(body: &JsonValue, session_id: &str) -> (r: SessionControlInfo)
    ensures
        (texts(r.identifiers@), opt_view(r.player_address)) == control_info(*body, session_id@),
{
    let mut identifiers: Vec<String> = Vec::new();
    identifiers.push(owned(session_id));
    assert(texts(identifiers@) =~= seq![session_id@]);
    let sessions = match array_value(at_key(at_key(Some(body), "MediaContainer"), "Metadata")) {
        Some(a) => a,
        None => {
            return SessionControlInfo { identifiers, player_address: None };
        },
    };
    let mut k: usize = 0;
    while k < sessions.len()
        invariant
            k <= sessions@.len(),
            sessions@ == elements(at(at(Some(*body), "MediaContainer"@), "Metadata"@)),
            texts(identifiers@) =~= seq![session_id@],
            player_index(sessions@, session_id@, 0) == player_index(sessions@, session_id@, k as int),
        decreases sessions.len() - k,
    {
        let s = Some(&sessions[k]);
        let player = at_key(s, "Player");
        if str_value_is(at_key(player, "machineIdentifier"), session_id) {
            push_unique(&mut identifiers, str_value(at_key(player, "machineIdentifier")));
            push_unique(&mut identifiers, str_value(at_key(at_key(s, "Session"), "id")));
            push_unique(&mut identifiers, str_value(at_key(player, "playbackSessionId")));
            push_unique(&mut identifiers, str_value(at_key(player, "playbackId")));
            push_unique(&mut identifiers, digits_text(u64_value(at_key(s, "sessionKey"))));
            return SessionControlInfo { identifiers, player_address: str_value(at_key(player, "address")) };
        }
        k += 1;
    }
    SessionControlInfo { identifiers, player_address: None }
}

/// Whether `m` lists the streams of the stream objects `vs`, in order.
pub open spec fn plex_streams_are(m: Seq<MediaStream>, vs: Seq<JsonValue>) -> bool {
    &&& m.len() == vs.len()
    &&& forall|i: int| 0 <= i < vs.len() ==> plex_media_stream_is(#[trigger] m[i], vs[i])
}

fn parse_stream_list(o: Option<&JsonValue>) -> (r: Vec<MediaStream>)
    ensures
        plex_streams_are(r@, elements(value_of(o))),
{
    let mut out: Vec<MediaStream> = Vec::new();
    match array_value(o) {
        Some(streams) => {
            let mut k: usize = 0;
            while k < streams.len()
                invariant
                    k <= streams@.len(),
                    out@.len() == k,
                    forall|i: int| 0 <= i < k ==> plex_media_stream_is(#[trigger] out@[i], streams@[i]),
                decreases streams.len() - k,
            {
                out.push(parse_media_stream(&streams[k]));
                k += 1;
            }
        },
        None => {},
    }
    out
}

/// The parts of all media, in order.
pub open spec fn all_parts(media: Seq<JsonValue>) -> Seq<JsonValue>
    decreases media.len(),
{
    if media.len() == 0 {
        Seq::empty()
    } else {
        all_parts(media.drop_last()) + elements(at(Some(media.last()), "Part"@))
    }
}

/// The position of the first part that lists streams.
pub open spec fn first_streamed(parts: Seq<JsonValue>) -> Option<int>
    decreases parts.len(),
{
    if parts.len() == 0 {
        None
    } else {
        match first_streamed(parts.drop_last()) {
            Some(k) => Some(k),
            None => if elements(at(Some(parts.last()), "Stream"@)).len() > 0 {
                Some(parts.len() - 1)
            } else {
                None
            },
        }
    }
}

proof fn lemma_first_streamed(parts: Seq<JsonValue>)
    ensures
        first_streamed(parts) matches Some(f) ==> 0 <= f < parts.len() && elements(
            at(Some(parts[f]), "Stream"@),
        ).len() > 0,
    decreases parts.len(),
{
    if parts.len() > 0 {
        lemma_first_streamed(parts.drop_last());
    }
}

/// The media source ID of a part: its numeric `id` as text, else its `id`
/// string, else empty.
pub open spec fn part_source_id(part: JsonValue) -> Seq<char> {
    match lenient_u64(at(Some(part), "id"@)) {
        Some(n) => decimal_digits(n as nat),
        None => text_or(as_str(at(Some(part), "id"@)), ""@),
    }
}

/// What a part object of Plex describes as a media source.
pub open spec fn plex_media_source_is(m: MediaSource, part: JsonValue) -> bool {
    &&& m.id@ == part_source_id(part)
    &&& opt_view(m.path) == as_str(at(Some(part), "file"@))
    &&& plex_streams_are(m.media_streams@, elements(at(Some(part), "Stream"@)))
}

/// What the first metadata element of a `/library/metadata/{id}` response
/// describes: one media source per part of each media, the streams of the
/// first part that lists any, and the first part's file.
pub open spec fn plex_item_info_is(info: ItemInfo, metadata: JsonValue) -> bool {
    let o = Some(metadata);
    let parts = all_parts(elements(at(o, "Media"@)));
    &&& info.id@ == text_or(as_str(at(o, "ratingKey"@)), ""@)
    &&& info.name@ == text_or(as_str(at(o, "title"@)), ""@)
    &&& info.media_sources@.len() == parts.len()
    &&& forall|i: int| 0 <= i < parts.len() ==> plex_media_source_is(#[trigger] info.media_sources@[i], parts[i])
    &&& match first_streamed(parts) {
        Some(k) => plex_streams_are(info.media_streams@, elements(at(Some(parts[k]), "Stream"@))),
        None => info.media_streams@.len() == 0,
    }
    &&& opt_view(info.path) == (if parts.len() > 0 {
        as_str(at(Some(parts[0]), "file"@))
    } else {
        None
    })
}

/// Reads a `/library/metadata/{id}` response of Plex (see
/// [`plex_item_info_is`]); none when it has no metadata element.
pub fn item_info_from_body(body: &JsonValue) -> (r: Option<ItemInfo>)
    ensures
        ({
            let metadata = elements(at(at(Some(*body), "MediaContainer"@), "Metadata"@));
            match r {
                Some(info) => metadata.len() > 0 && plex_item_info_is(info, metadata[0]),
                None => metadata.len() == 0,
            }
        }),
{
    let metadata = match array_value(at_key(at_key(Some(body), "MediaContainer"), "Metadata")) {
        Some(a) => if a.len() > 0 {
            &a[0]
        } else {
            return None;
        },
        None => {
            return None;
        },
    };
    let o = Some(metadata);
    let ghost media_seq = elements(at(Some(*metadata), "Media"@));
    let mut media_sources: Vec<MediaSource> = Vec::new();
    let mut media_streams: Vec<MediaStream> = Vec::new();
    let mut first_path: Option<String> = None;
    let ghost mut done: Seq<JsonValue> = Seq::empty();
    match array_value(at_key(o, "Media")) {
        Some(media) => {
            let mut k: usize = 0;
            while k < media.len()
                invariant
                    k <= media@.len(),
                    media@ == media_seq,
                    done == all_parts(media@.take(k as int)),
                    media_sources@.len() == done.len(),
                    forall|i: int| 0 <= i < done.len() ==> plex_media_source_is(#[trigger] media_sources@[i], done[i]),
                    match first_streamed(done) {
                        Some(f) => plex_streams_are(media_streams@, elements(at(Some(done[f]), "Stream"@))),
                        None => media_streams@.len() == 0,
                    },
                    opt_view(first_path) == (if done.len() > 0 {
                        as_str(at(Some(done[0]), "file"@))
                    } else {
                        None
                    }),
                decreases media.len() - k,
            {
                assert(media@.take(k + 1).drop_last() =~= media@.take(k as int));
                let ghost start = done;
                match array_value(at_key(Some(&media[k]), "Part")) {
                    Some(parts) => {
                        let mut j: usize = 0;
                        while j < parts.len()
                            invariant
                                j <= parts@.len(),
                                done == start + parts@.take(j as int),
                                media_sources@.len() == done.len(),
                                forall|i: int|
                                    0 <= i < done.len() ==> plex_media_source_is(#[trigger] media_sources@[i], done[i]),
                                match first_streamed(done) {
                                    Some(f) => plex_streams_are(
                                        media_streams@,
                                        elements(at(Some(done[f]), "Stream"@)),
                                    ),
                                    None => media_streams@.len() == 0,
                                },
                                opt_view(first_path) == (if done.len() > 0 {
                                    as_str(at(Some(done[0]), "file"@))
                                } else {
                                    None
                                }),
                            decreases parts.len() - j,
                        {
                            let part = Some(&parts[j]);
                            let ghost before = done;
                            proof {
                                done = done.push(parts@[j as int]);
                                assert(done == start + parts@.take(j + 1)) by {
                                    assert(parts@.take(j + 1) =~= parts@.take(j as int).push(parts@[j as int]));
                                }
                                assert(done.drop_last() =~= before);
                            }
                            let id = match value_as_u64(at_key(part, "id")) {
                                Some(n) => string_of(&u64_digits(n)),
                                None => text_or_default(at_key(part, "id"), ""),
                            };
                            let streams = parse_stream_list(at_key(part, "Stream"));
                            proof {
                                lemma_first_streamed(before);
                            }
                            if media_streams.len() == 0 && streams.len() > 0 {
                                media_streams = parse_stream_list(at_key(part, "Stream"));
                            }
                            if media_sources.len() == 0 {
                                first_path = str_value(at_key(part, "file"));
                            }
                            media_sources.push(MediaSource { id, path: str_value(at_key(part, "file")), media_streams: streams });
                            proof {
                                reveal_strlit("");
                                assert forall|i: int| 0 <= i < done.len() implies plex_media_source_is(
                                    #[trigger] media_sources@[i],
                                    done[i],
                                ) by {
                                    if i < before.len() {
                                        assert(done[i] == before[i]);
                                    }
                                }
                                lemma_first_streamed(before);
                                if first_streamed(before) is Some {
                                    let f = first_streamed(before)->0;
                                    assert(done[f] == before[f]);
                                }
                                if before.len() > 0 {
                                    assert(done[0] == before[0]);
                                }
                            }
                            j += 1;
                        }
                        proof {
                            assert(parts@.take(parts@.len() as int) =~= parts@);
                        }
                    },
                    None => {},
                }
                proof {
                    assert(media@.take(k + 1).last() == media@[k as int]);
                    assert(all_parts(media@.take(k + 1)) == all_parts(media@.take(k as int)) + elements(
                        at(Some(media@[k as int]), "Part"@),
                    ));
                    assert(done =~= all_parts(media@.take(k + 1)));
                }
                k += 1;
            }
            proof {
                assert(media@.take(media@.len() as int) =~= media@);
            }
        },
        None => {
            assert(all_parts(media_seq) =~= Seq::<JsonValue>::empty());
        },
    }
    proof {
        reveal_strlit("");
    }
    Some(ItemInfo {
        id: text_or_default(at_key(o, "ratingKey"), ""),
        name: text_or_default(at_key(o, "title"), ""),
        path: first_path,
        media_streams,
        media_sources,
    })
}

/// Why a Plex item lookup failed.
#[derive(Clone, Copy, Debug, PartialEq, Eq, Structural)]
pub enum PlexLookupError {
    /// The response has no metadata element.
    NoMetadata,
    /// The matching part has no `key`.
    PartWithoutKey,
    /// No part matches the media source.
    PartNotFound,
    /// The matching subtitle stream has no numeric `id`.
    StreamWithoutId,
    /// No subtitle stream has the index.
    StreamNotFound,
}

/// The ID of a part: its integer `id` as text, else its `id` string.
pub open spec fn part_id(part: JsonValue) -> Option<Seq<char>> {
    match as_u64(at(Some(part), "id"@)) {
        Some(n) => Some(decimal_digits(n as nat)),
        None => as_str(at(Some(part), "id"@)),
    }
}

/// Whether a part is the media source's: its ID is the source ID, or the
/// item has a single media.
pub open spec fn part_matches(part: JsonValue, source_id: Seq<char>, media_count: nat) -> bool {
    part_id(part) == Some(source_id) || media_count == 1
}

/// The first matching part, after `acc` (kept once found).
pub open spec fn pick_part(acc: Option<JsonValue>, parts: Seq<JsonValue>, source_id: Seq<char>, media_count: nat) -> Option<JsonValue>
    decreases parts.len(),
{
    if parts.len() == 0 {
        acc
    } else {
        let a = pick_part(acc, parts.drop_last(), source_id, media_count);
        if a is None && part_matches(parts.last(), source_id, media_count) {
            Some(parts.last())
        } else {
            a
        }
    }
}

/// The first matching part over the parts of each media.
pub open spec fn pick_media_part(acc: Option<JsonValue>, media: Seq<JsonValue>, source_id: Seq<char>, media_count: nat) -> Option<JsonValue>
    decreases media.len(),
{
    if media.len() == 0 {
        acc
    } else {
        pick_part(
            pick_media_part(acc, media.drop_last(), source_id, media_count),
            elements(at(Some(media.last()), "Part"@)),
            source_id,
            media_count,
        )
    }
}

fn part_id_is(part: &JsonValue, source_id: &str) -> (r: bool)
    ensures
        r == (part_id(*part) == Some(source_id@)),
{
    match u64_value(at_key(Some(part), "id")) {
        Some(n) => {
            let t = string_of(&u64_digits(n));
            str_equal(t.as_str(), source_id)
        },
        None => str_value_is(at_key(Some(part), "id"), source_id),
    }
}

fn find_part<'a>(media: &'a Vec<JsonValue>, source_id: &str) -> (r: Option<&'a JsonValue>)
    ensures
        value_of(r) == pick_media_part(None, media@, source_id@, media@.len()),
{
    let mut found: Option<&JsonValue> = None;
    let mut k: usize = 0;
    while k < media.len()
        invariant
            k <= media@.len(),
            value_of(found) == pick_media_part(None, media@.take(k as int), source_id@, media@.len()),
        decreases media.len() - k,
    {
        assert(media@.take(k + 1).drop_last() =~= media@.take(k as int));
        let ghost start = value_of(found);
        match array_value(at_key(Some(&media[k]), "Part")) {
            Some(parts) => {
                let mut j: usize = 0;
                while j < parts.len()
                    invariant
                        j <= parts@.len(),
                        value_of(found) == pick_part(start, parts@.take(j as int), source_id@, media@.len()),
                    decreases parts.len() - j,
                {
                    assert(parts@.take(j + 1).drop_last() =~= parts@.take(j as int));
                    if found.is_none() && (part_id_is(&parts[j], source_id) || media.len() == 1) {
                        found = Some(&parts[j]);
                    }
                    j += 1;
                }
                assert(parts@.take(parts@.len() as int) =~= parts@);
            },
            None => {
                assert(elements(at(Some(media@[k as int]), "Part"@)) =~= Seq::<JsonValue>::empty());
            },
        }
        k += 1;
    }
    assert(media@.take(media@.len() as int) =~= media@);
    found
}

/// The part key and file of the media source of an item, from its
/// `/library/metadata/{id}` response: the first part (over all media) whose
/// ID is the source ID, or any part when the item has a single media.
pub open spec fn part_info(body: JsonValue, source_id: Seq<char>) -> Result<(Seq<char>, Seq<char>), PlexLookupError> {
    let metadata = elements(at(at(Some(body), "MediaContainer"@), "Metadata"@));
    if metadata.len() == 0 {
        Err(PlexLookupError::NoMetadata)
    } else {
        let media = elements(at(Some(metadata[0]), "Media"@));
        match pick_media_part(None, media, source_id, media.len()) {
            None => Err(PlexLookupError::PartNotFound),
            Some(part) => match as_str(at(Some(part), "key"@)) {
                Some(key) => Ok((key, text_or(as_str(at(Some(part), "file"@)), ""@))),
                None => Err(PlexLookupError::PartWithoutKey),
            },
        }
    }
}

/// The key and file of a media source's part (see [`part_info`]).
pub fn part_info_from_body(body: &JsonValue, source_id: &str) -> (r: Result<(String, String), PlexLookupError>)
    ensures
        match r {
            Ok((key, file)) => part_info(*body, source_id@) == Ok::<(Seq<char>, Seq<char>), PlexLookupError>((key@, file@)),
            Err(e) => part_info(*body, source_id@) == Err::<(Seq<char>, Seq<char>), PlexLookupError>(e),
        },
{
    let metadata = match array_value(at_key(at_key(Some(body), "MediaContainer"), "Metadata")) {
        Some(a) => if a.len() > 0 {
            &a[0]
        } else {
            return Err(PlexLookupError::NoMetadata);
        },
        None => {
            return Err(PlexLookupError::NoMetadata);
        },
    };
    let empty: Vec<JsonValue> = Vec::new();
    let media = match array_value(at_key(Some(metadata), "Media")) {
        Some(m) => m,
        None => &empty,
    };
    assert(media@ == elements(at(Some(*metadata), "Media"@)));
    let part = match find_part(media, source_id) {
        Some(p) => p,
        None => {
            return Err(PlexLookupError::PartNotFound);
        },
    };
    match str_value(at_key(Some(part), "key")) {
        Some(key) => {
            proof {
                reveal_strlit("");
            }
            Ok((key, text_or_default(at_key(Some(part), "file"), "")))
        },
        None => Err(PlexLookupError::PartWithoutKey),
    }
}

/// A subtitle stream of Plex: its ID, codec and key.
pub struct PlexSubtitleStream {
    pub id: u64,
    pub codec: Option<String>,
    pub key: Option<String>,
}

/// Whether a stream object is the subtitle stream with the given index.
pub open spec fn is_subtitle_at(stream: JsonValue, index: u32) -> bool {
    as_u64(at(Some(stream), "streamType"@)) == Some(3u64) && lookup_index(Some(stream)) == index
}

/// The first subtitle stream with the index, after `acc`.
pub open spec fn pick_stream(acc: Option<JsonValue>, streams: Seq<JsonValue>, index: u32) -> Option<JsonValue>
    decreases streams.len(),
{
    if streams.len() == 0 {
        acc
    } else {
        let a = pick_stream(acc, streams.drop_last(), index);
        if a is None && is_subtitle_at(streams.last(), index) {
            Some(streams.last())
        } else {
            a
        }
    }
}

/// Whether a part is searched for a source's stream: its ID is the source
/// ID, or the item has at most one media.
pub open spec fn part_searched(part: JsonValue, source_id: Seq<char>, media_count: nat) -> bool {
    part_id(part) == Some(source_id) || media_count <= 1
}

/// The first subtitle stream with the index over the searched parts.
pub open spec fn pick_part_stream(
    acc: Option<JsonValue>,
    parts: Seq<JsonValue>,
    source_id: Seq<char>,
    media_count: nat,
    index: u32,
) -> Option<JsonValue>
    decreases parts.len(),
{
    if parts.len() == 0 {
        acc
    } else {
        let a = pick_part_stream(acc, parts.drop_last(), source_id, media_count, index);
        if part_searched(parts.last(), source_id, media_count) {
            pick_stream(a, elements(at(Some(parts.last()), "Stream"@)), index)
        } else {
            a
        }
    }
}

/// The first subtitle stream with the index over the parts of each media.
pub open spec fn pick_media_stream(
    acc: Option<JsonValue>,
    media: Seq<JsonValue>,
    source_id: Seq<char>,
    media_count: nat,
    index: u32,
) -> Option<JsonValue>
    decreases media.len(),
{
    if media.len() == 0 {
        acc
    } else {
        pick_part_stream(
            pick_media_stream(acc, media.drop_last(), source_id, media_count, index),
            elements(at(Some(media.last()), "Part"@)),
            source_id,
            media_count,
            index,
        )
    }
}

/// The subtitle stream with the given file index among the searched parts
/// of an item's `/library/metadata/{id}` response: its ID (a number or a
/// numeric string), codec and key.
pub open spec fn subtitle_stream(body: JsonValue, source_id: Seq<char>, index: u32) -> Result<(u64, Option<Seq<char>>, Option<Seq<char>>), PlexLookupError> {
    let metadata = elements(at(at(Some(body), "MediaContainer"@), "Metadata"@));
    if metadata.len() == 0 {
        Err(PlexLookupError::NoMetadata)
    } else {
        let media = elements(at(Some(metadata[0]), "Media"@));
        match pick_media_stream(None, media, source_id, media.len(), index) {
            None => Err(PlexLookupError::StreamNotFound),
            Some(st) => match lenient_u64(at(Some(st), "id"@)) {
                Some(id) => Ok((id, as_str(at(Some(st), "codec"@)), as_str(at(Some(st), "key"@)))),
                None => Err(PlexLookupError::StreamWithoutId),
            },
        }
    }
}

fn find_stream_in<'a>(
    found: Option<&'a JsonValue>,
    streams: &'a Vec<JsonValue>,
    index: u32,
) -> (r: Option<&'a JsonValue>)
    ensures
        value_of(r) == pick_stream(value_of(found), streams@, index),
{
    let mut cur = found;
    let mut k: usize = 0;
    while k < streams.len()
        invariant
            k <= streams@.len(),
            value_of(cur) == pick_stream(value_of(found), streams@.take(k as int), index),
        decreases streams.len() - k,
    {
        assert(streams@.take(k + 1).drop_last() =~= streams@.take(k as int));
        let s = Some(&streams[k]);
        if cur.is_none() && u64_value(at_key(s, "streamType")) == Some(3u64) && stream_lookup_index(s) == index {
            cur = s;
        }
        k += 1;
    }
    assert(streams@.take(streams@.len() as int) =~= streams@);
    cur
}

fn find_subtitle_stream<'a>(media: &'a Vec<JsonValue>, source_id: &str, index: u32) -> (r: Option<&'a JsonValue>)
    ensures
        value_of(r) == pick_media_stream(None, media@, source_id@, media@.len(), index),
{
    let mut found: Option<&JsonValue> = None;
    let mut k: usize = 0;
    while k < media.len()
        invariant
            k <= media@.len(),
            value_of(found) == pick_media_stream(None, media@.take(k as int), source_id@, media@.len(), index),
        decreases media.len() - k,
    {
        assert(media@.take(k + 1).drop_last() =~= media@.take(k as int));
        let ghost start = value_of(found);
        match array_value(at_key(Some(&media[k]), "Part")) {
            Some(parts) => {
                let mut j: usize = 0;
                while j < parts.len()
                    invariant
                        j <= parts@.len(),
                        value_of(found) == pick_part_stream(start, parts@.take(j as int), source_id@, media@.len(), index),
                    decreases parts.len() - j,
                {
                    assert(parts@.take(j + 1).drop_last() =~= parts@.take(j as int));
                    if part_id_is(&parts[j], source_id) || media.len() <= 1 {
                        match array_value(at_key(Some(&parts[j]), "Stream")) {
                            Some(streams) => {
                                found = find_stream_in(found, streams, index);
                            },
                            None => {
                                assert(elements(at(Some(parts@[j as int]), "Stream"@)) =~= Seq::<JsonValue>::empty());
                            },
                        }
                    }
                    j += 1;
                }
                assert(parts@.take(parts@.len() as int) =~= parts@);
            },
            None => {
                assert(elements(at(Some(media@[k as int]), "Part"@)) =~= Seq::<JsonValue>::empty());
            },
        }
        k += 1;
    }
    assert(media@.take(media@.len() as int) =~= media@);
    found
}

/// Finds a subtitle stream of an item by its file index (see
/// [`subtitle_stream`]).
pub fn subtitle_stream_from_body(body: &JsonValue, source_id: &str, index: u32) -> (r: Result<PlexSubtitleStream, PlexLookupError>)
    ensures
        match r {
            Ok(s) => subtitle_stream(*body, source_id@, index) == Ok::<
                (u64, Option<Seq<char>>, Option<Seq<char>>),
                PlexLookupError,
            >((s.id, opt_view(s.codec), opt_view(s.key))),
            Err(e) => subtitle_stream(*body, source_id@, index) == Err::<
                (u64, Option<Seq<char>>, Option<Seq<char>>),
                PlexLookupError,
            >(e),
        },
{
    let metadata = match array_value(at_key(at_key(Some(body), "MediaContainer"), "Metadata")) {
        Some(a) => if a.len() > 0 {
            &a[0]
        } else {
            return Err(PlexLookupError::NoMetadata);
        },
        None => {
            return Err(PlexLookupError::NoMetadata);
        },
    };
    let empty: Vec<JsonValue> = Vec::new();
    let media = match array_value(at_key(Some(metadata), "Media")) {
        Some(m) => m,
        None => &empty,
    };
    assert(media@ == elements(at(Some(*metadata), "Media"@)));
    let stream = match find_subtitle_stream(media, source_id, index) {
        Some(s) => s,
        None => {
            return Err(PlexLookupError::StreamNotFound);
        },
    };
    match value_as_u64(at_key(Some(stream), "id")) {
        Some(id) => Ok(PlexSubtitleStream {
            id,
            codec: str_value(at_key(Some(stream), "codec")),
            key: str_value(at_key(Some(stream), "key")),
        }),
        None => Err(PlexLookupError::StreamWithoutId),
    }
}

/// The file extension of a subtitle stream's codec (ASCII lower case; the
/// requested format's when there is no codec): `subrip` is `srt`, `webvtt`
/// is `vtt`, `mov_text` and `text` take the requested format's.
pub open spec fn subtitle_extension_of(codec: Option<Seq<char>>, requested: SubtitleFormat) -> Seq<char> {
    let req: Seq<char> = match requested {
        SubtitleFormat::Vtt => "vtt"@,
        SubtitleFormat::Srt => "srt"@,
    };
    let c = lower_seq(
        match codec {
            Some(c) => c,
            None => req,
        },
    );
    if c == "subrip"@ {
        "srt"@
    } else if c == "webvtt"@ {
        "vtt"@
    } else if c == "mov_text"@ || c == "text"@ {
        req
    } else {
        c
    }
}

/// The file extension to fetch a subtitle stream as (see
/// [`subtitle_extension_of`]).
pub fn subtitle_extension(codec: Option<&str>, requested: SubtitleFormat) -> (r: String)
    ensures
        r@ == subtitle_extension_of(
            match codec {
                Some(c) => Some(c@),
                None => None,
            },
            requested,
        ),
{
    let req = requested.extension();
    let c = lower_chars(
        &chars_of(
            match codec {
                Some(c) => c,
                None => req,
            },
        ),
    );
    if chars_are(&c, "subrip") {
        owned("srt")
    } else if chars_are(&c, "webvtt") {
        owned("vtt")
    } else if chars_are(&c, "mov_text") || chars_are(&c, "text") {
        owned(req)
    } else {
        string_of(&c)
    }
}

} // verus!

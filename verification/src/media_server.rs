//! What a media server reports: sessions, the playing item and its streams.
use vstd::prelude::*;
use crate::config::{Config, MediaServerKind};
use crate::text::{append, append_str, owned, str_equal, string_of, u64_padded, zero_padded};

verus! {

/// Subtitle formats a server can deliver.
#[derive(Clone, Copy, Debug, PartialEq, Eq, Structural)]
pub enum SubtitleFormat {
    Vtt,
    Srt,
}

impl SubtitleFormat {
    pub fn extension(&self) -> (r: &'static str)
        ensures
            r@ == (match self {
                SubtitleFormat::Vtt => "vtt"@,
                SubtitleFormat::Srt => "srt"@,
            }),
    {
        match self {
            SubtitleFormat::Vtt => "vtt",
            SubtitleFormat::Srt => "srt",
        }
    }
}

/// The kind of a media stream.
#[derive(Clone, Copy, Debug, PartialEq, Eq, Structural)]
pub enum StreamType {
    Video,
    Audio,
    Subtitle,
    Other,
}

/// One stream of a media file.
pub struct MediaStream {
    pub index: u32,
    pub stream_type: StreamType,
    pub codec: Option<String>,
    pub language: Option<String>,
    pub display_title: Option<String>,
    pub is_default: bool,
    pub is_external: bool,
    pub is_text_subtitle_stream: bool,
    pub title: Option<String>,
}

/// Playback state of a session.
pub struct PlayState {
    pub can_seek: bool,
    pub is_paused: bool,
    /// Position in ticks of 100 ns.
    pub position_ticks: Option<i64>,
    pub audio_stream_index: Option<u32>,
    pub subtitle_stream_index: Option<i32>,
}

/// The item a session is playing.
pub struct NowPlaying {
    pub item_id: String,
    pub name: String,
    pub series_name: Option<String>,
    pub season_index: Option<u32>,
    pub episode_index: Option<u32>,
    pub media_type: String,
    pub run_time_ticks: Option<i64>,
    pub media_streams: Vec<MediaStream>,
    pub media_source_id: Option<String>,
    pub path: Option<String>,
}

/// A playback session on a media server.
pub struct Session {
    pub id: String,
    /// The server's ID of one playback instance, where the server has them.
    pub playback_session_id: Option<String>,
    pub client: String,
    pub device_name: String,
    pub user_name: Option<String>,
    pub user_id: Option<String>,
    /// When the server last saw activity, in milliseconds since the epoch.
    pub last_activity_at_ms: Option<i64>,
    pub now_playing: Option<NowPlaying>,
    pub play_state: PlayState,
    pub supports_remote_control: bool,
}

/// One media source (file) of an item.
pub struct MediaSource {
    pub id: String,
    pub path: Option<String>,
    pub media_streams: Vec<MediaStream>,
}

/// An item's details.
pub struct ItemInfo {
    pub id: String,
    pub name: String,
    pub path: Option<String>,
    pub media_streams: Vec<MediaStream>,
    pub media_sources: Vec<MediaSource>,
}

/// Whether a stream of the given type has exactly the language `lang`.
pub open spec fn stream_has_language(s: MediaStream, t: StreamType, lang: Seq<char>) -> bool {
    s.stream_type == t && s.language is Some && s.language->0@ == lang
}

/// The text of `{series} S{season:02}E{episode:02} - {name}`, or the name
/// alone for an item outside a series.
pub open spec fn display_title_text(n: NowPlaying) -> Seq<char> {
    match n.series_name {
        Some(series) => series@ + " S"@ + zero_padded(
            (match n.season_index {
                Some(s) => s,
                None => 0,
            }) as nat,
            2,
        ) + "E"@ + zero_padded(
            (match n.episode_index {
                Some(e) => e,
                None => 0,
            }) as nat,
            2,
        ) + " - "@ + n.name@,
        None => n.name@,
    }
}

/// Integer division rounding toward zero, as Rust's `/` on signed values.
pub open spec fn div_toward_zero(a: int, b: int) -> int {
    if a >= 0 {
        a / b
    } else {
        -((-a) / b)
    }
}

impl NowPlaying {
    /// Whether an audio stream has exactly the language `lang`.
    pub fn has_audio_language(&self, lang: &str) -> (r: bool)
        ensures
            r == exists|k: int|
                0 <= k < self.media_streams@.len() && stream_has_language(
                    #[trigger] self.media_streams@[k],
                    StreamType::Audio,
                    lang@,
                ),
    {
        let mut k: usize = 0;
        while k < self.media_streams.len()
            invariant
                k <= self.media_streams@.len(),
                forall|j: int|
                    0 <= j < k ==> !stream_has_language(
                        #[trigger] self.media_streams@[j],
                        StreamType::Audio,
                        lang@,
                    ),
            decreases self.media_streams.len() - k,
        {
            let s = &self.media_streams[k];
            if s.stream_type == StreamType::Audio {
                match &s.language {
                    Some(l) => {
                        if str_equal(l.as_str(), lang) {
                            assert(stream_has_language(
                                self.media_streams@[k as int],
                                StreamType::Audio,
                                lang@,
                            ));
                            return true;
                        }
                    },
                    None => {},
                }
            }
            k += 1;
        }
        false
    }

    /// The subtitle streams with exactly the language `lang`, in order.
    pub fn subtitle_streams_for_language(&self, lang: &str) -> (r: Vec<&MediaStream>)
        ensures
            r@.map_values(|s: &MediaStream| *s) == self.media_streams@.filter(
                |s: MediaStream| stream_has_language(s, StreamType::Subtitle, lang@),
            ),
    {
        let mut r: Vec<&MediaStream> = Vec::new();
        let mut k: usize = 0;
        while k < self.media_streams.len()
            invariant
                k <= self.media_streams@.len(),
                r@.map_values(|s: &MediaStream| *s) == self.media_streams@.take(k as int).filter(
                    |s: MediaStream| stream_has_language(s, StreamType::Subtitle, lang@),
                ),
            decreases self.media_streams.len() - k,
        {
            let s = &self.media_streams[k];
            let keep = s.stream_type == StreamType::Subtitle && match &s.language {
                Some(l) => str_equal(l.as_str(), lang),
                None => false,
            };
            proof {
                let t = self.media_streams@.take(k + 1);
                assert(t.drop_last() =~= self.media_streams@.take(k as int));
                assert(t.last() == *s);
                reveal(Seq::filter);
            }
            let ghost before = r@.map_values(|s: &MediaStream| *s);
            if keep {
                r.push(s);
                assert(r@.map_values(|s: &MediaStream| *s) =~= before.push(*s));
            } else {
                assert(r@.map_values(|s: &MediaStream| *s) =~= before);
            }
            k += 1;
        }
        assert(self.media_streams@.take(self.media_streams@.len() as int) =~= self.media_streams@);
        r
    }

    /// `Series S01E02 - Name` for an episode of a series, else the name.
    pub fn display_title(&self) -> (r: String)
        ensures
            r@ == display_title_text(*self),
    {
        match &self.series_name {
            Some(series) => {
                let s: u32 = match self.season_index {
                    Some(v) => v,
                    None => 0,
                };
                let e: u32 = match self.episode_index {
                    Some(v) => v,
                    None => 0,
                };
                let mut t: Vec<char> = Vec::new();
                append_str(&mut t, series.as_str());
                append_str(&mut t, " S");
                append(&mut t, &u64_padded(s as u64, 2));
                append_str(&mut t, "E");
                append(&mut t, &u64_padded(e as u64, 2));
                append_str(&mut t, " - ");
                append_str(&mut t, self.name.as_str());
                string_of(&t)
            },
            None => owned(self.name.as_str()),
        }
    }
}

impl Session {
    /// The playback position in milliseconds (ticks of 100 ns divided by
    /// 10 000, rounded toward zero).
    pub fn position_ms(&self) -> (r: Option<i64>)
        ensures
            match self.play_state.position_ticks {
                Some(t) => r == Some(div_toward_zero(t as int, 10_000) as i64),
                None => r is None,
            },
    {
        match self.play_state.position_ticks {
            Some(t) => Some(t / 10_000),
            None => None,
        }
    }
}

/// What a media-server client is built from: the kind, the base URL and
/// the API key or token.
pub struct ServerEndpoint {
    pub kind: MediaServerKind,
    pub url: String,
    pub key: String,
}

/// The text of an endpoint.
pub open spec fn endpoint_view(e: ServerEndpoint) -> (MediaServerKind, Seq<char>, Seq<char>) {
    (e.kind, e.url@, e.key@)
}

/// The endpoints of the enabled servers: Emby, then Jellyfin, then Plex.
pub open spec fn enabled_endpoints(c: Config) -> Seq<(MediaServerKind, Seq<char>, Seq<char>)> {
    let e: Seq<(MediaServerKind, Seq<char>, Seq<char>)> = match c.emby {
        Some(x) => if x.enabled {
            seq![(MediaServerKind::Emby, x.url@, x.api_key@)]
        } else {
            Seq::empty()
        },
        None => Seq::empty(),
    };
    let j: Seq<(MediaServerKind, Seq<char>, Seq<char>)> = match c.jellyfin {
        Some(x) => if x.enabled {
            seq![(MediaServerKind::Jellyfin, x.url@, x.api_key@)]
        } else {
            Seq::empty()
        },
        None => Seq::empty(),
    };
    let p: Seq<(MediaServerKind, Seq<char>, Seq<char>)> = match c.plex {
        Some(x) => if x.enabled {
            seq![(MediaServerKind::Plex, x.url@, x.token@)]
        } else {
            Seq::empty()
        },
        None => Seq::empty(),
    };
    e + j + p
}

/// The clients to build for the enabled servers of the settings.
pub fn build_media_servers(config: &Config) -> (r: Vec<ServerEndpoint>)
    ensures
        r@.map_values(|e: ServerEndpoint| endpoint_view(e)) == enabled_endpoints(*config),
{
    let mut r: Vec<ServerEndpoint> = Vec::new();
    match &config.emby {
        Some(x) => if x.enabled {
            r.push(ServerEndpoint { kind: MediaServerKind::Emby, url: x.url.clone(), key: x.api_key.clone() });
        },
        None => {},
    }
    match &config.jellyfin {
        Some(x) => if x.enabled {
            r.push(ServerEndpoint { kind: MediaServerKind::Jellyfin, url: x.url.clone(), key: x.api_key.clone() });
        },
        None => {},
    }
    match &config.plex {
        Some(x) => if x.enabled {
            r.push(ServerEndpoint { kind: MediaServerKind::Plex, url: x.url.clone(), key: x.token.clone() });
        },
        None => {},
    }
    assert(r@.map_values(|e: ServerEndpoint| endpoint_view(e)) =~= enabled_endpoints(*config));
    r
}


/// A copy of an optional string.
fn copy_text(o: &Option<String>) -> (r: Option<String>)
    ensures
        r == *o,
{
    match o {
        Some(t) => Some(t.clone()),
        None => None,
    }
}

impl Clone for MediaStream {
    fn clone(&self) -> (r: Self)
        ensures
            r == *self,
    {
        MediaStream {
            index: self.index,
            stream_type: self.stream_type,
            codec: copy_text(&self.codec),
            language: copy_text(&self.language),
            display_title: copy_text(&self.display_title),
            is_default: self.is_default,
            is_external: self.is_external,
            is_text_subtitle_stream: self.is_text_subtitle_stream,
            title: copy_text(&self.title),
        }
    }
}

impl Clone for PlayState {
    fn clone(&self) -> (r: Self)
        ensures
            r == *self,
    {
        PlayState {
            can_seek: self.can_seek,
            is_paused: self.is_paused,
            position_ticks: self.position_ticks,
            audio_stream_index: self.audio_stream_index,
            subtitle_stream_index: self.subtitle_stream_index,
        }
    }
}

/// A copy of a list of streams.
fn copy_streams(v: &Vec<MediaStream>) -> (r: Vec<MediaStream>)
    ensures
        r@ == v@,
{
    let mut r: Vec<MediaStream> = Vec::new();
    let mut k: usize = 0;
    while k < v.len()
        invariant
            k <= v@.len(),
            r@ == v@.take(k as int),
        decreases v.len() - k,
    {
        r.push(v[k].clone());
        assert(v@.take(k + 1) == v@.take(k as int).push(v@[k as int]));
        k += 1;
    }
    assert(v@.take(v@.len() as int) == v@);
    r
}

/// Whether two playing items hold the same values (their stream lists by
/// content).
pub open spec fn same_now_playing(a: NowPlaying, b: NowPlaying) -> bool {
    &&& a.item_id == b.item_id
    &&& a.name == b.name
    &&& a.series_name == b.series_name
    &&& a.season_index == b.season_index
    &&& a.episode_index == b.episode_index
    &&& a.media_type == b.media_type
    &&& a.run_time_ticks == b.run_time_ticks
    &&& a.media_streams@ == b.media_streams@
    &&& a.media_source_id == b.media_source_id
    &&& a.path == b.path
}

/// Whether two sessions hold the same values.
pub open spec fn same_session(a: Session, b: Session) -> bool {
    &&& a.id == b.id
    &&& a.playback_session_id == b.playback_session_id
    &&& a.client == b.client
    &&& a.device_name == b.device_name
    &&& a.user_name == b.user_name
    &&& a.user_id == b.user_id
    &&& a.last_activity_at_ms == b.last_activity_at_ms
    &&& match (a.now_playing, b.now_playing) {
        (Some(x), Some(y)) => same_now_playing(x, y),
        (None, None) => true,
        _ => false,
    }
    &&& a.play_state == b.play_state
    &&& a.supports_remote_control == b.supports_remote_control
}

impl Clone for NowPlaying {
    fn clone(&self) -> (r: Self)
        ensures
            same_now_playing(r, *self),
    {
        NowPlaying {
            item_id: self.item_id.clone(),
            name: self.name.clone(),
            series_name: copy_text(&self.series_name),
            season_index: self.season_index,
            episode_index: self.episode_index,
            media_type: self.media_type.clone(),
            run_time_ticks: self.run_time_ticks,
            media_streams: copy_streams(&self.media_streams),
            media_source_id: copy_text(&self.media_source_id),
            path: copy_text(&self.path),
        }
    }
}

impl Clone for Session {
    fn clone(&self) -> (r: Self)
        ensures
            same_session(r, *self),
    {
        Session {
            id: self.id.clone(),
            playback_session_id: copy_text(&self.playback_session_id),
            client: self.client.clone(),
            device_name: self.device_name.clone(),
            user_name: copy_text(&self.user_name),
            user_id: copy_text(&self.user_id),
            last_activity_at_ms: self.last_activity_at_ms,
            now_playing: match &self.now_playing {
                Some(np) => Some(np.clone()),
                None => None,
            },
            play_state: self.play_state.clone(),
            supports_remote_control: self.supports_remote_control,
        }
    }
}

} // verus!

//! Which AudioBookShelf listening sessions are shown: the open sessions it
//! reports, and the downloaded (local) playback it only records in its
//! listening history.
use vstd::prelude::*;
use crate::json::{
    array_value, as_array, as_i64, as_str, as_u64, at, at_key, elements, text_or, i64_value, member, member_of, str_value,
    str_value_is, u64_value, value_of, JsonValue,
};
use crate::text::{chars_of, lower_chars, lower_seq, opt_view, owned, seq_equal, string_of, trim, trim_chars};
use crate::media_server::{ItemInfo, MediaSource, MediaStream, NowPlaying, PlayState, Session, StreamType};
use crate::text::{append, append_str, decimal_digits, u64_digits};
use crate::session::{path_file_name, path_file_name_exec, split_file_name, split_file_name_exec};

verus! {

/// How long after its last progress report an open session counts as stale.
pub const PLAYBACK_STALE_AFTER_MS: i64 = 25_000;

/// How long downloaded playback stays visible after its last sync.
pub const LOCAL_SESSION_VISIBLE_AFTER_MS: i64 = 600_000;

/// The `playMethod` of downloaded playback.
pub const LOCAL_PLAY_METHOD: u64 = 3;

/// `i64::saturating_sub`.
pub open spec fn saturating_diff(a: i64, b: i64) -> int {
    let d = a - b;
    if d < i64::MIN {
        i64::MIN as int
    } else if d > i64::MAX {
        i64::MAX as int
    } else {
        d
    }
}

fn saturating_diff_exec(a: i64, b: i64) -> (r: i64)
    ensures
        r == saturating_diff(a, b),
{
    let d = a as i128 - b as i128;
    if d < -0x8000_0000_0000_0000i128 {
        i64::MIN
    } else if d > 0x7FFF_FFFF_FFFF_FFFFi128 {
        i64::MAX
    } else {
        d as i64
    }
}

/// When a session was last updated (its `updatedAt`, else 0).
pub open spec fn updated_at(v: JsonValue) -> i64 {
    match as_i64(at(Some(v), "updatedAt"@)) {
        Some(t) => t,
        None => 0,
    }
}

/// When a session was last updated (see [`updated_at`]).
pub fn session_updated_at(v: &JsonValue) -> (r: i64)
    ensures
        r == updated_at(*v),
{
    match i64_value(at_key(Some(v), "updatedAt")) {
        Some(t) => t,
        None => 0,
    }
}

/// Whether both sessions name the same user.
pub open spec fn same_user_spec(l: JsonValue, r: JsonValue) -> bool {
    as_str(at(Some(l), "userId"@)) is Some && as_str(at(Some(l), "userId"@)) == as_str(at(Some(r), "userId"@))
}

/// Whether both sessions name the same user (see [`same_user_spec`]).
pub fn same_user(l: &JsonValue, r: &JsonValue) -> (b: bool)
    ensures
        b == same_user_spec(*l, *r),
{
    match str_value(at_key(Some(l), "userId")) {
        Some(id) => str_value_is(at_key(Some(r), "userId"), id.as_str()),
        None => false,
    }
}

/// Whether both sessions name the same device.
pub open spec fn same_device_spec(l: JsonValue, r: JsonValue) -> bool {
    let a = as_str(at(at(Some(l), "deviceInfo"@), "deviceId"@));
    a is Some && a == as_str(at(at(Some(r), "deviceInfo"@), "deviceId"@))
}

/// Whether both sessions name the same device (see [`same_device_spec`]).
pub fn same_device(l: &JsonValue, r: &JsonValue) -> (b: bool)
    ensures
        b == same_device_spec(*l, *r),
{
    match str_value(at_key(at_key(Some(l), "deviceInfo"), "deviceId")) {
        Some(id) => str_value_is(at_key(at_key(Some(r), "deviceInfo"), "deviceId"), id.as_str()),
        None => false,
    }
}

/// Whether downloaded playback replaces an open session: same user, updated
/// later, and on the same device or with the open session stale.
pub open spec fn supersedes(local: JsonValue, open: JsonValue, now_ms: i64) -> bool {
    &&& same_user_spec(local, open)
    &&& updated_at(local) > updated_at(open)
    &&& (same_device_spec(local, open) || saturating_diff(now_ms, updated_at(open)) > PLAYBACK_STALE_AFTER_MS)
}

/// Whether downloaded playback replaces an open session (see
/// [`supersedes`]).
pub fn local_session_supersedes_open(local: &JsonValue, open: &JsonValue, now_ms: i64) -> (b: bool)
    ensures
        b == supersedes(*local, *open, now_ms),
{
    if !same_user(local, open) || session_updated_at(local) <= session_updated_at(open) {
        return false;
    }
    let open_is_stale = saturating_diff_exec(now_ms, session_updated_at(open)) > PLAYBACK_STALE_AFTER_MS;
    same_device(local, open) || open_is_stale
}

/// Whether downloaded playback is still shown: it is local playback synced
/// at most ten minutes ago.
pub open spec fn visible_local(v: JsonValue, now_ms: i64) -> bool {
    &&& as_u64(at(Some(v), "playMethod"@)) == Some(LOCAL_PLAY_METHOD)
    &&& saturating_diff(now_ms, updated_at(v)) <= LOCAL_SESSION_VISIBLE_AFTER_MS
}

/// Whether downloaded playback is still shown (see [`visible_local`]).
pub fn is_visible_local_session(v: &JsonValue, now_ms: i64) -> (b: bool)
    ensures
        b == visible_local(*v, now_ms),
{
    u64_value(at_key(Some(v), "playMethod")) == Some(LOCAL_PLAY_METHOD) && saturating_diff_exec(
        now_ms,
        session_updated_at(v),
    ) <= LOCAL_SESSION_VISIBLE_AFTER_MS
}

/// The open sessions of an `/api/sessions/open` response: its `sessions`
/// member when present, else its `openSessions`; none unless that is an
/// array.
pub open spec fn open_sessions_of(body: JsonValue) -> Option<Seq<JsonValue>> {
    if member(body, "sessions"@) is Some {
        as_array(member(body, "sessions"@))
    } else {
        as_array(member(body, "openSessions"@))
    }
}

/// The open sessions of a response (see [`open_sessions_of`]).
pub fn sessions_from_response(body: &JsonValue) -> (r: Option<&Vec<JsonValue>>)
    ensures
        match r {
            Some(a) => open_sessions_of(*body) == Some(a@),
            None => open_sessions_of(*body) is None,
        },
{
    match member_of(body, "sessions") {
        Some(s) => array_value(Some(s)),
        None => array_value(member_of(body, "openSessions")),
    }
}

/// The name shown for a session's device: the first of the device's
/// `clientName`, `model`, `browserName` and `deviceType` that is not blank,
/// else "AudioBookShelf Player".
pub open spec fn device_name_of(v: JsonValue) -> Seq<char> {
    let info = at(Some(v), "deviceInfo"@);
    let pick = |key: Seq<char>|
        match as_str(at(info, key)) {
            Some(t) => if trim(t).len() > 0 {
                Some(t)
            } else {
                None
            },
            None => None,
        };
    match pick("clientName"@) {
        Some(t) => t,
        None => match pick("model"@) {
            Some(t) => t,
            None => match pick("browserName"@) {
                Some(t) => t,
                None => match pick("deviceType"@) {
                    Some(t) => t,
                    None => "AudioBookShelf Player"@,
                },
            },
        },
    }
}

fn non_blank(o: Option<&JsonValue>) -> (r: Option<String>)
    ensures
        match r {
            Some(t) => as_str(value_of(o)) == Some(t@) && trim(t@).len() > 0,
            None => !(as_str(value_of(o)) matches Some(t) && trim(t).len() > 0),
        },
{
    match str_value(o) {
        Some(t) => {
            if trim_chars(&chars_of(t.as_str())).len() > 0 {
                Some(t)
            } else {
                None
            }
        },
        None => None,
    }
}

/// The name shown for a session's device (see [`device_name_of`]).
pub fn device_name(v: &JsonValue) -> (r: String)
    ensures
        r@ == device_name_of(*v),
{
    let info = at_key(Some(v), "deviceInfo");
    if let Some(t) = non_blank(at_key(info, "clientName")) {
        return t;
    }
    if let Some(t) = non_blank(at_key(info, "model")) {
        return t;
    }
    if let Some(t) = non_blank(at_key(info, "browserName")) {
        return t;
    }
    if let Some(t) = non_blank(at_key(info, "deviceType")) {
        return t;
    }
    owned("AudioBookShelf Player")
}

/// The downloaded sessions still shown, in order.
pub open spec fn visible_locals(locals: Seq<JsonValue>, now_ms: i64) -> Seq<JsonValue>
    decreases locals.len(),
{
    if locals.len() == 0 {
        Seq::empty()
    } else if visible_local(locals.last(), now_ms) {
        visible_locals(locals.drop_last(), now_ms).push(locals.last())
    } else {
        visible_locals(locals.drop_last(), now_ms)
    }
}

/// Whether some downloaded session replaces an open one.
pub open spec fn superseded(locals: Seq<JsonValue>, open: JsonValue, now_ms: i64) -> bool {
    exists|i: int| 0 <= i < locals.len() && supersedes(#[trigger] locals[i], open, now_ms)
}

/// The open sessions that no downloaded session replaces, in order.
pub open spec fn kept_opens(locals: Seq<JsonValue>, opens: Seq<JsonValue>, now_ms: i64) -> Seq<JsonValue>
    decreases opens.len(),
{
    if opens.len() == 0 {
        Seq::empty()
    } else if superseded(locals, opens.last(), now_ms) {
        kept_opens(locals, opens.drop_last(), now_ms)
    } else {
        kept_opens(locals, opens.drop_last(), now_ms).push(opens.last())
    }
}

fn is_superseded(locals: &[JsonValue], open: &JsonValue, now_ms: i64) -> (r: bool)
    ensures
        r == superseded(locals@, *open, now_ms),
{
    let mut k: usize = 0;
    while k < locals.len()
        invariant
            k <= locals@.len(),
            forall|i: int| 0 <= i < k ==> !supersedes(#[trigger] locals@[i], *open, now_ms),
        decreases locals.len() - k,
    {
        if local_session_supersedes_open(&locals[k], open, now_ms) {
            return true;
        }
        k += 1;
    }
    false
}

/// The sessions to show: the downloaded sessions still shown, then the open
/// sessions that no downloaded session replaces (a newer downloaded row
/// replaces an older streamed one).
pub fn discovered_sessions<'a>(locals: &'a [JsonValue], opens: &'a [JsonValue], now_ms: i64) -> (r: Vec<&'a JsonValue>)
    ensures
        r@.map_values(|x: &JsonValue| *x) == visible_locals(locals@, now_ms) + kept_opens(locals@, opens@, now_ms),
{
    let mut r: Vec<&JsonValue> = Vec::new();
    let mut k: usize = 0;
    while k < locals.len()
        invariant
            k <= locals@.len(),
            r@.map_values(|x: &JsonValue| *x) == visible_locals(locals@.take(k as int), now_ms),
        decreases locals.len() - k,
    {
        assert(locals@.take(k + 1).drop_last() =~= locals@.take(k as int));
        let ghost before = r@;
        if is_visible_local_session(&locals[k], now_ms) {
            r.push(&locals[k]);
            assert(r@.map_values(|x: &JsonValue| *x) =~= before.map_values(|x: &JsonValue| *x).push(locals@[k as int]));
        }
        k += 1;
    }
    assert(locals@.take(locals@.len() as int) =~= locals@);
    let ghost head = r@.map_values(|x: &JsonValue| *x);
    let mut j: usize = 0;
    while j < opens.len()
        invariant
            j <= opens@.len(),
            head == visible_locals(locals@, now_ms),
            r@.map_values(|x: &JsonValue| *x) == head + kept_opens(locals@, opens@.take(j as int), now_ms),
        decreases opens.len() - j,
    {
        assert(opens@.take(j + 1).drop_last() =~= opens@.take(j as int));
        let ghost before = r@;
        if !is_superseded(locals, &opens[j], now_ms) {
            r.push(&opens[j]);
            assert(r@.map_values(|x: &JsonValue| *x) =~= before.map_values(|x: &JsonValue| *x).push(opens@[j as int]));
            assert(head + kept_opens(locals@, opens@.take(j + 1), now_ms) =~= (head + kept_opens(
                locals@,
                opens@.take(j as int),
                now_ms,
            )).push(opens@[j as int]));
        }
        j += 1;
    }
    assert(opens@.take(opens@.len() as int) =~= opens@);
    r
}

// Session details
// ---------------------------------------------------------------------------

/// A trimmed text that is not empty.
pub open spec fn non_empty_trimmed(o: Option<Seq<char>>) -> Option<Seq<char>> {
    match o {
        Some(t) => if trim(t).len() > 0 {
            Some(trim(t))
        } else {
            None
        },
        None => None,
    }
}

/// The first of two optional texts that is present.
pub open spec fn or_text(a: Option<Seq<char>>, b: Option<Seq<char>>) -> Option<Seq<char>> {
    match a {
        Some(t) => Some(t),
        None => b,
    }
}

/// The language an `audioFiles` entry gives the track with the given index.
pub open spec fn file_language(file: JsonValue, index: u32) -> Option<Seq<char>> {
    match as_u64(member(file, "index"@)) {
        Some(n) => if n as u32 == index {
            non_empty_trimmed(as_str(member(file, "language"@)))
        } else {
            None
        },
        None => None,
    }
}

/// The language of the track with the given index among the item's audio
/// files: the last file with that index and a language wins.
pub open spec fn listed_language(files: Seq<JsonValue>, index: u32) -> Option<Seq<char>>
    decreases files.len(),
{
    if files.len() == 0 {
        None
    } else {
        match file_language(files.last(), index) {
            Some(l) => Some(l),
            None => listed_language(files.drop_last(), index),
        }
    }
}

/// Whether a file path names an `mp3` or `m4b` file (extension in any ASCII
/// case).
pub open spec fn supported_audio_path(path: Seq<char>) -> bool {
    match path_file_name(path) {
        Some(name) => match split_file_name(name).1 {
            Some(ext) => lower_seq(ext) == "mp3"@ || lower_seq(ext) == "m4b"@,
            None => false,
        },
        None => false,
    }
}

/// An audio track of an AudioBookShelf session. `ordinal` is its position in
/// the session's `audioTracks`, where its start offset and duration stand.
pub struct AbsAudioTrack {
    pub ordinal: u64,
    pub index: u32,
    pub title: Option<String>,
    pub content_url: Option<String>,
    pub codec: Option<String>,
    pub language: Option<String>,
    pub path: String,
}

/// The view of an audio track.
pub struct AbsAudioTrackView {
    pub ordinal: u64,
    pub index: u32,
    pub title: Option<Seq<char>>,
    pub content_url: Option<Seq<char>>,
    pub codec: Option<Seq<char>>,
    pub language: Option<Seq<char>>,
    pub path: Seq<char>,
}

impl View for AbsAudioTrack {
    type V = AbsAudioTrackView;

    open spec fn view(&self) -> AbsAudioTrackView {
        AbsAudioTrackView {
            ordinal: self.ordinal,
            index: self.index,
            title: opt_view(self.title),
            content_url: opt_view(self.content_url),
            codec: opt_view(self.codec),
            language: opt_view(self.language),
            path: self.path@,
        }
    }
}

/// The file path of the `k`-th entry of `audioTracks`: its own metadata
/// path, or the item's path when the session has this one track.
pub open spec fn track_path(v: JsonValue, tracks: Seq<JsonValue>, k: int) -> Option<Seq<char>> {
    or_text(
        as_str(at(member(tracks[k], "metadata"@), "path"@)),
        if tracks.len() == 1 {
            as_str(at(member(v, "libraryItem"@), "path"@))
        } else {
            None
        },
    )
}

/// The track that the `k`-th entry of `audioTracks` describes; none when it
/// has no path or its file is neither `mp3` nor `m4b`.
pub open spec fn track_of(v: JsonValue, tracks: Seq<JsonValue>, k: int) -> Option<AbsAudioTrackView> {
    match track_path(v, tracks, k) {
        Some(path) => if supported_audio_path(path) {
            let t = tracks[k];
            let index = match as_u64(member(t, "index"@)) {
                Some(n) => n as u32,
                None => k as u32,
            };
            let files = elements(at(at(member(v, "libraryItem"@), "media"@), "audioFiles"@));
            Some(
                AbsAudioTrackView {
                    ordinal: k as u64,
                    index,
                    title: or_text(
                        as_str(member(t, "title"@)),
                        as_str(at(member(t, "metadata"@), "filename"@)),
                    ),
                    content_url: as_str(member(t, "contentUrl"@)),
                    codec: as_str(member(t, "codec"@)),
                    language: or_text(
                        listed_language(files, index),
                        non_empty_trimmed(as_str(member(t, "language"@))),
                    ),
                    path,
                },
            )
        } else {
            None
        },
        None => None,
    }
}

/// The tracks of the first `n` entries of `audioTracks`, in order.
pub open spec fn tracks_upto(v: JsonValue, tracks: Seq<JsonValue>, n: int) -> Seq<AbsAudioTrackView>
    decreases n,
{
    if n <= 0 {
        Seq::empty()
    } else {
        match track_of(v, tracks, n - 1) {
            Some(t) => tracks_upto(v, tracks, n - 1).push(t),
            None => tracks_upto(v, tracks, n - 1),
        }
    }
}

/// The details of an AudioBookShelf session.
pub struct AbsSessionDetails {
    pub library_item_id: String,
    pub display_title: String,
    pub series_name: Option<String>,
    pub media_type: String,
    pub audio_tracks: Vec<AbsAudioTrack>,
}

/// The view of session details.
pub struct AbsSessionDetailsView {
    pub library_item_id: Seq<char>,
    pub display_title: Seq<char>,
    pub series_name: Option<Seq<char>>,
    pub media_type: Seq<char>,
    pub audio_tracks: Seq<AbsAudioTrackView>,
}

impl View for AbsSessionDetails {
    type V = AbsSessionDetailsView;

    open spec fn view(&self) -> AbsSessionDetailsView {
        AbsSessionDetailsView {
            library_item_id: self.library_item_id@,
            display_title: self.display_title@,
            series_name: opt_view(self.series_name),
            media_type: self.media_type@,
            audio_tracks: self.audio_tracks@.map_values(|t: AbsAudioTrack| t@),
        }
    }
}

/// Why session details could not be read.
#[derive(Debug, PartialEq, Eq, Structural)]
pub enum AbsDetailsError {
    /// The session names no `libraryItemId`.
    MissingLibraryItemId,
}

/// The first element of an array value.
pub open spec fn first_element(o: Option<JsonValue>) -> Option<JsonValue> {
    match as_array(o) {
        Some(a) => if a.len() > 0 {
            Some(a[0])
        } else {
            None
        },
        None => None,
    }
}

/// The series a session belongs to: the item's `seriesName`, else the
/// session's `mediaMetadata.seriesName`, else the name of its first
/// `mediaMetadata.series`; trimmed, and none when blank.
pub open spec fn abs_series_name(v: JsonValue) -> Option<Seq<char>> {
    let meta = member(v, "mediaMetadata"@);
    non_empty_trimmed(
        or_text(
            as_str(at(at(at(member(v, "libraryItem"@), "media"@), "metadata"@), "seriesName"@)),
            or_text(as_str(at(meta, "seriesName"@)), as_str(at(first_element(at(meta, "series"@)), "name"@))),
        ),
    )
}

/// The details a session value gives (see [`track_of`]); the tracks stay in
/// the order of `audioTracks`.
pub open spec fn session_details(v: JsonValue) -> Result<AbsSessionDetailsView, AbsDetailsError> {
    match as_str(member(v, "libraryItemId"@)) {
        None => Err(AbsDetailsError::MissingLibraryItemId),
        Some(id) => {
            let tracks = elements(member(v, "audioTracks"@));
            Ok(
                AbsSessionDetailsView {
                    library_item_id: id,
                    display_title: text_or(
                        or_text(
                            as_str(member(v, "displayTitle"@)),
                            as_str(at(at(at(member(v, "libraryItem"@), "media"@), "metadata"@), "title"@)),
                        ),
                        "Audiobook"@,
                    ),
                    series_name: abs_series_name(v),
                    media_type: text_or(as_str(member(v, "mediaType"@)), "book"@),
                    audio_tracks: tracks_upto(v, tracks, tracks.len() as int),
                },
            )
        },
    }
}

/// The first of two optional strings that is present.
fn or_string(a: Option<String>, b: Option<String>) -> (r: Option<String>)
    ensures
        opt_view(r) == or_text(opt_view(a), opt_view(b)),
{
    match a {
        Some(t) => Some(t),
        None => b,
    }
}

/// The trimmed text of a string value, none when it is blank.
fn non_empty_trimmed_exec(o: Option<String>) -> (r: Option<String>)
    ensures
        opt_view(r) == non_empty_trimmed(opt_view(o)),
{
    match o {
        Some(t) => {
            let trimmed = trim_chars(&chars_of(t.as_str()));
            if trimmed.len() > 0 {
                Some(string_of(&trimmed))
            } else {
                None
            }
        },
        None => None,
    }
}

/// The language of the track with the given index among the item's audio
/// files (see [`listed_language`]).
fn listed_language_exec(files: &Vec<JsonValue>, index: u32) -> (r: Option<String>)
    ensures
        opt_view(r) == listed_language(files@, index),
{
    let mut k: usize = files.len();
    assert(files@.take(k as int) =~= files@);
    while k > 0
        invariant
            k <= files@.len(),
            listed_language(files@, index) == listed_language(files@.take(k as int), index),
        decreases k,
    {
        let f = &files[k - 1];
        let ghost pre = files@.take(k as int);
        assert(pre.last() == files@[k - 1]);
        assert(pre.drop_last() =~= files@.take(k - 1));
        let matches_index = match u64_value(member_of(f, "index")) {
            Some(n) => #[verifier::truncate] (n as u32) == index,
            None => false,
        };
        if matches_index {
            let l = non_empty_trimmed_exec(str_value(member_of(f, "language")));
            if l.is_some() {
                return l;
            }
        }
        k -= 1;
    }
    None
}

/// Whether a file path names an `mp3` or `m4b` file.
pub fn is_supported_audio_path(path: &str) -> (r: bool)
    ensures
        r == supported_audio_path(path@),
{
    match path_file_name_exec(&chars_of(path)) {
        Some(name) => {
            let (_, ext) = split_file_name_exec(&name);
            match ext {
                Some(e) => {
                    let lower = lower_chars(&e);
                    seq_equal(&lower, &chars_of("mp3")) || seq_equal(&lower, &chars_of("m4b"))
                },
                None => false,
            }
        },
        None => false,
    }
}

/// The track that the `k`-th entry of `audioTracks` describes (see
/// [`track_of`]).
fn track_at(v: &JsonValue, tracks: &Vec<JsonValue>, k: usize) -> (r: Option<AbsAudioTrack>)
    requires
        k < tracks@.len(),
    ensures
        match r {
            Some(t) => track_of(*v, tracks@, k as int) == Some(t@),
            None => track_of(*v, tracks@, k as int) is None,
        },
{
    let t = &tracks[k];
    let own_path = str_value(at_key(member_of(t, "metadata"), "path"));
    let item_path = if tracks.len() == 1 {
        str_value(at_key(member_of(v, "libraryItem"), "path"))
    } else {
        None
    };
    let path = match or_string(own_path, item_path) {
        Some(p) => p,
        None => return None,
    };
    if !is_supported_audio_path(path.as_str()) {
        return None;
    }
    let index: u32 = match u64_value(member_of(t, "index")) {
        Some(n) => #[verifier::truncate] (n as u32),
        None => #[verifier::truncate] ((k as u64) as u32),
    };
    let listed = match array_value(at_key(at_key(member_of(v, "libraryItem"), "media"), "audioFiles")) {
        Some(files) => listed_language_exec(files, index),
        None => None,
    };
    let own_language = non_empty_trimmed_exec(str_value(member_of(t, "language")));
    Some(
        AbsAudioTrack {
            ordinal: k as u64,
            index,
            title: or_string(
                str_value(member_of(t, "title")),
                str_value(at_key(member_of(t, "metadata"), "filename")),
            ),
            content_url: str_value(member_of(t, "contentUrl")),
            codec: str_value(member_of(t, "codec")),
            language: or_string(listed, own_language),
            path,
        },
    )
}

/// Reads the details of an AudioBookShelf session (see
/// [`session_details`]): its library item, title, series, media type and
/// the `mp3`/`m4b` tracks in the order of `audioTracks`.
pub fn parse_session_details(value: &JsonValue) -> (r: Result<AbsSessionDetails, AbsDetailsError>)
    ensures
        match r {
            Ok(d) => session_details(*value) == Ok::<AbsSessionDetailsView, AbsDetailsError>(d@),
            Err(e) => session_details(*value) == Err::<AbsSessionDetailsView, AbsDetailsError>(e),
        },
{
    let library_item_id = match str_value(member_of(value, "libraryItemId")) {
        Some(id) => id,
        None => return Err(AbsDetailsError::MissingLibraryItemId),
    };
    let mut audio_tracks: Vec<AbsAudioTrack> = Vec::new();
    let tracks_opt = array_value(member_of(value, "audioTracks"));
    let ghost tracks = elements(member(*value, "audioTracks"@));
    match tracks_opt {
        Some(tracks_vec) => {
            let mut k: usize = 0;
            while k < tracks_vec.len()
                invariant
                    k <= tracks_vec@.len(),
                    tracks_vec@ == tracks,
                    audio_tracks@.map_values(|t: AbsAudioTrack| t@) == tracks_upto(*value, tracks, k as int),
                decreases tracks_vec.len() - k,
            {
                let ghost before = audio_tracks@;
                match track_at(value, tracks_vec, k) {
                    Some(t) => {
                        audio_tracks.push(t);
                        assert(audio_tracks@.map_values(|t: AbsAudioTrack| t@) =~= before.map_values(
                            |t: AbsAudioTrack| t@,
                        ).push(t@));
                    },
                    None => {},
                }
                k += 1;
            }
        },
        None => {
            assert(audio_tracks@.map_values(|t: AbsAudioTrack| t@) =~= Seq::<AbsAudioTrackView>::empty());
        },
    }
    let item = member_of(value, "libraryItem");
    let item_metadata = at_key(at_key(item, "media"), "metadata");
    let display_title = match or_string(str_value(member_of(value, "displayTitle")), str_value(at_key(item_metadata, "title"))) {
        Some(t) => t,
        None => owned("Audiobook"),
    };
    let meta = member_of(value, "mediaMetadata");
    let first_series = match array_value(at_key(meta, "series")) {
        Some(a) => if a.len() > 0 {
            str_value(member_of(&a[0], "name"))
        } else {
            None
        },
        None => None,
    };
    let series_name = non_empty_trimmed_exec(
        or_string(
            str_value(at_key(item_metadata, "seriesName")),
            or_string(str_value(at_key(meta, "seriesName")), first_series),
        ),
    );
    let media_type = match str_value(member_of(value, "mediaType")) {
        Some(t) => t,
        None => owned("book"),
    };
    Ok(AbsSessionDetails { library_item_id, display_title, series_name, media_type, audio_tracks })
}

/// Whether a session is probably paused: it reports no `updatedAt`, or its
/// last update is more than [`PLAYBACK_STALE_AFTER_MS`] old.
pub open spec fn probably_paused(v: JsonValue, now_ms: i64) -> bool {
    match as_i64(member(v, "updatedAt"@)) {
        None => true,
        Some(t) => saturating_diff(now_ms, t) > PLAYBACK_STALE_AFTER_MS,
    }
}

/// Whether a session is probably paused (see [`probably_paused`]).
pub fn session_probably_paused(value: &JsonValue, now_ms: i64) -> (r: bool)
    ensures
        r == probably_paused(*value, now_ms),
{
    match i64_value(member_of(value, "updatedAt")) {
        None => true,
        Some(t) => saturating_diff_exec(now_ms, t) > PLAYBACK_STALE_AFTER_MS,
    }
}

/// The audio stream a session shows for its track.
pub open spec fn abs_stream_is(s: MediaStream, t: AbsAudioTrackView) -> bool {
    &&& s.index == t.index
    &&& s.stream_type == StreamType::Audio
    &&& opt_view(s.codec) == t.codec
    &&& opt_view(s.language) == t.language
    &&& opt_view(s.display_title) == t.title
    &&& s.is_default
    &&& !s.is_external
    &&& !s.is_text_subtitle_stream
    &&& opt_view(s.title) == t.title
}

/// Whether a stream list is the one stream of the track.
pub open spec fn only_stream_of(ss: Seq<MediaStream>, t: AbsAudioTrackView) -> bool {
    ss.len() == 1 && abs_stream_is(ss[0], t)
}

/// The item ID of the playing track: the library item, with the track's
/// index appended when the book has several tracks.
pub open spec fn abs_item_id(d: AbsSessionDetailsView, t: AbsAudioTrackView) -> Seq<char> {
    if d.audio_tracks.len() > 1 {
        d.library_item_id + ":abs-track:"@ + decimal_digits(t.index as nat)
    } else {
        d.library_item_id
    }
}

/// The title of the playing track: the book's title, followed by the
/// track's title when the book has several tracks and the track has one.
pub open spec fn abs_title(d: AbsSessionDetailsView, t: AbsAudioTrackView) -> Seq<char> {
    if d.audio_tracks.len() > 1 {
        match t.title {
            Some(tt) => d.display_title + " — "@ + tt,
            None => d.display_title,
        }
    } else {
        d.display_title
    }
}

/// The media source of the track: its content URL, else `abs-track-{index}`.
pub open spec fn abs_source_id(t: AbsAudioTrackView) -> Seq<char> {
    match t.content_url {
        Some(u) => u,
        None => "abs-track-"@ + decimal_digits(t.index as nat),
    }
}

/// The session, and the item details, that an AudioBookShelf session value
/// gives for its playing track `t`, with the play state worked out from its
/// reported times (`is_paused`, the position within the track and the
/// track's duration, in ticks).
pub open spec fn abs_session_is(
    s: Session,
    info: ItemInfo,
    v: JsonValue,
    d: AbsSessionDetailsView,
    t: AbsAudioTrackView,
    is_paused: bool,
    position_ticks: i64,
    duration_ticks: Option<i64>,
) -> bool {
    let item_id = abs_item_id(d, t);
    let title = abs_title(d, t);
    let source_id = abs_source_id(t);
    &&& Some(s.id@) == as_str(member(v, "id"@))
    &&& s.playback_session_id is None
    &&& s.client@ == text_or(as_str(member(v, "mediaPlayer"@)), "AudioBookShelf"@)
    &&& s.device_name@ == device_name_of(v)
    &&& opt_view(s.user_name) == as_str(at(member(v, "user"@), "username"@))
    &&& opt_view(s.user_id) == as_str(member(v, "userId"@))
    &&& s.last_activity_at_ms == as_i64(member(v, "updatedAt"@))
    &&& s.play_state == PlayState {
        can_seek: false,
        is_paused,
        position_ticks: Some(position_ticks),
        audio_stream_index: Some(t.index),
        subtitle_stream_index: None,
    }
    &&& !s.supports_remote_control
    &&& match s.now_playing {
        Some(np) => {
            &&& np.item_id@ == item_id
            &&& np.name@ == title
            &&& opt_view(np.series_name) == d.series_name
            &&& np.season_index is None
            &&& np.episode_index is None
            &&& np.media_type@ == d.media_type
            &&& np.run_time_ticks == duration_ticks
            &&& only_stream_of(np.media_streams@, t)
            &&& opt_view(np.media_source_id) == Some(source_id)
            &&& opt_view(np.path) == Some(t.path)
        },
        None => false,
    }
    &&& info.id@ == item_id
    &&& info.name@ == title
    &&& opt_view(info.path) == Some(t.path)
    &&& only_stream_of(info.media_streams@, t)
    &&& info.media_sources@.len() == 1
    &&& info.media_sources@[0].id@ == source_id
    &&& opt_view(info.media_sources@[0].path) == Some(t.path)
    &&& only_stream_of(info.media_sources@[0].media_streams@, t)
}

/// The audio stream of a track.
fn abs_stream(t: &AbsAudioTrack) -> (r: MediaStream)
    ensures
        abs_stream_is(r, t@),
{
    MediaStream {
        index: t.index,
        stream_type: StreamType::Audio,
        codec: clone_text(&t.codec),
        language: clone_text(&t.language),
        display_title: clone_text(&t.title),
        is_default: true,
        is_external: false,
        is_text_subtitle_stream: false,
        title: clone_text(&t.title),
    }
}

fn clone_text(o: &Option<String>) -> (r: Option<String>)
    ensures
        opt_view(r) == opt_view(*o),
{
    match o {
        Some(s) => Some(owned(s.as_str())),
        None => None,
    }
}

/// Builds the session and item details of an AudioBookShelf session value
/// for its playing track `details.audio_tracks[track]` (see
/// [`abs_session_is`]); none when the value has no `id`. Which track plays,
/// the position within it and whether playback is paused come from the
/// session's reported times.
pub fn abs_session(
    value: &JsonValue,
    details: &AbsSessionDetails,
    track: usize,
    is_paused: bool,
    position_ticks: i64,
    duration_ticks: Option<i64>,
) -> (r: Option<(Session, ItemInfo)>)
    requires
        track < details.audio_tracks@.len(),
    ensures
        match r {
            Some((s, info)) => abs_session_is(
                s,
                info,
                *value,
                details@,
                details@.audio_tracks[track as int],
                is_paused,
                position_ticks,
                duration_ticks,
            ),
            None => as_str(member(*value, "id"@)) is None,
        },
{
    let id = match str_value(member_of(value, "id")) {
        Some(id) => id,
        None => return None,
    };
    let t = &details.audio_tracks[track];
    let ghost tv = details@.audio_tracks[track as int];
    assert(t@ == tv);
    let several = details.audio_tracks.len() > 1;
    let mut item: Vec<char> = chars_of(details.library_item_id.as_str());
    if several {
        append_str(&mut item, ":abs-track:");
        append(&mut item, &u64_digits(t.index as u64));
    }
    let mut title: Vec<char> = chars_of(details.display_title.as_str());
    if several {
        match &t.title {
            Some(tt) => {
                append_str(&mut title, " — ");
                append_str(&mut title, tt.as_str());
            },
            None => {},
        }
    }
    let mut source: Vec<char> = Vec::new();
    match &t.content_url {
        Some(u) => append_str(&mut source, u.as_str()),
        None => {
            append_str(&mut source, "abs-track-");
            append(&mut source, &u64_digits(t.index as u64));
        },
    }
    assert(item@ == abs_item_id(details@, tv));
    assert(title@ == abs_title(details@, tv));
    assert(source@ == abs_source_id(tv));
    let item_id = string_of(&item);
    let title_text = string_of(&title);
    let source_id = string_of(&source);
    let now_playing = NowPlaying {
        item_id: string_of(&item),
        name: string_of(&title),
        series_name: clone_text(&details.series_name),
        season_index: None,
        episode_index: None,
        media_type: owned(details.media_type.as_str()),
        run_time_ticks: duration_ticks,
        media_streams: vec![abs_stream(t)],
        media_source_id: Some(string_of(&source)),
        path: Some(owned(t.path.as_str())),
    };
    let info = ItemInfo {
        id: item_id,
        name: title_text,
        path: Some(owned(t.path.as_str())),
        media_streams: vec![abs_stream(t)],
        media_sources: vec![MediaSource { id: source_id, path: Some(owned(t.path.as_str())), media_streams: vec![abs_stream(t)] }],
    };
    let client = match str_value(member_of(value, "mediaPlayer")) {
        Some(c) => c,
        None => owned("AudioBookShelf"),
    };
    let session = Session {
        id,
        playback_session_id: None,
        client,
        device_name: device_name(value),
        user_name: str_value(at_key(member_of(value, "user"), "username")),
        user_id: str_value(member_of(value, "userId")),
        last_activity_at_ms: i64_value(member_of(value, "updatedAt")),
        now_playing: Some(now_playing),
        play_state: PlayState {
            can_seek: false,
            is_paused,
            position_ticks: Some(position_ticks),
            audio_stream_index: Some(t.index),
            subtitle_stream_index: None,
        },
        supports_remote_control: false,
    };
    Some((session, info))
}

} // verus!

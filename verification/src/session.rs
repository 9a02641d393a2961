//! Session tracking decisions: which sessions are shown, which is followed
//! automatically, and which audio and subtitle tracks are used.
use vstd::prelude::*;
use std::cmp::Ordering;
use crate::config::{MediaServerKind, without_trailing_slashes};
use crate::media_server::{
    ItemInfo, MediaSource, MediaStream, NowPlaying, Session, StreamType, stream_has_language,
    display_title_text, div_toward_zero,
};
use crate::text::{
    append, append_str, chars_are, chars_of, clone_opt, eq_ignore_case, eq_ignore_case_chars,
    find_char_from, lemma_next_index_of, lower_chars, lower_seq, next_index_of, opt_view, owned,
    seq_equal, slice_vec, str_equal, string_of, trim, trim_chars, u64_digits, decimal_digits,
    after_last, after_last_exec, has_prefix, starts_with_chars, opt_equal, split_seq, split_chars,
    upper_seq, upper_chars, is_digit, to_uppercase_text, unicode_lower_char, lowercase_char,
    unicode_alphanumeric, is_alphanumeric_char, unicode_lower, to_lowercase_text, unicode_upper, join_seq, join_chars, u64_digits as digits_of,
    text_less, text_less_exec, lemma_text_less_asymmetric, lemma_text_less_transitive,
};

verus! {

/// How long a paused session stays visible after its last activity.
pub const PAUSED_SESSION_VISIBLE_AFTER_MS: u64 = 5 * 60 * 1000;

/// How long a paused AudioBookShelf session stays visible after its last
/// update, matching that server's listening history.
pub const AUDIOBOOKSHELF_PAUSED_SESSION_VISIBLE_AFTER_MS: u64 = 15 * 60 * 1000;

/// How long a session that claims to be playing may go without activity
/// before it is treated as abandoned.
pub const PLAYING_SESSION_STALE_AFTER_MS: u64 = 2 * 60 * 1000;

// ---------------------------------------------------------------------------
// Published state
// ---------------------------------------------------------------------------

/// A session as listed to the user.
pub struct SessionSummary {
    pub id: String,
    /// The provider's session ID, used for remote commands.
    pub remote_session_id: String,
    pub server_kind: MediaServerKind,
    pub client: String,
    pub device_name: String,
    pub user_name: Option<String>,
    pub title: Option<String>,
    pub is_target_language: bool,
}

/// Whether the subtitle track was chosen automatically or by the user.
#[derive(Clone, Copy, Debug, PartialEq, Eq, Structural)]
pub enum SubtitleSelectionMode {
    Auto,
    Manual,
}

/// Where a subtitle candidate comes from.
#[derive(Clone, Copy, Debug, PartialEq, Eq, Structural)]
pub enum SubtitleCandidateSource {
    Server,
    Sidecar,
}

/// How the active audio track was chosen.
#[derive(Clone, Copy, Debug, PartialEq, Eq, Structural)]
pub enum AudioTrackResolution {
    /// Only one audio track exists.
    Single,
    /// Chosen because it matches the target language.
    AutoLanguage,
    /// Chosen by the user.
    Manual,
    /// Several tracks and none in the target language: the user must pick.
    NeedsSelection,
}

/// The item being followed.
pub struct NowPlayingState {
    pub history_id: String,
    pub server_kind: MediaServerKind,
    pub item_id: String,
    pub title: String,
    pub series_name: Option<String>,
    pub position_ms: i64,
    pub duration_ms: Option<i64>,
    pub is_paused: bool,
    pub supports_remote_control: bool,
    pub subtitle_stream_index: Option<u32>,
    pub subtitle_candidate_id: Option<String>,
    pub subtitle_selection_mode: SubtitleSelectionMode,
    pub media_source_id: String,
    pub file_path: Option<String>,
    pub audio_stream_index: Option<u32>,
    /// The user's timing offset for the loaded subtitle track, in ms.
    pub subtitle_offset_ms: i64,
    /// Whether the selected subtitle track is being fetched.
    pub subtitle_loading: bool,
}

/// The state of the followed sessions.
pub struct SessionState {
    pub sessions: Vec<SessionSummary>,
    pub active_session_id: Option<String>,
    pub now_playing: Option<NowPlayingState>,
}

/// The position of the first summary with the given ID, from `k` on.
pub open spec fn summary_position_from(ss: Seq<SessionSummary>, id: Seq<char>, k: int) -> Option<int>
    decreases ss.len() - k,
{
    if k < 0 || k >= ss.len() {
        None
    } else if ss[k].id@ == id {
        Some(k)
    } else {
        summary_position_from(ss, id, k + 1)
    }
}

impl SessionState {
    /// The provider session ID of the active session, if it is listed.
    pub fn active_remote_session_id(&self) -> (r: Option<&str>)
        ensures
            match self.active_session_id {
                None => r is None,
                Some(a) => match summary_position_from(self.sessions@, a@, 0) {
                    Some(k) => r matches Some(x) && x@ == self.sessions@[k].remote_session_id@,
                    None => r is None,
                },
            },
    {
        let active = match &self.active_session_id {
            Some(a) => a.as_str(),
            None => {
                return None;
            },
        };
        let mut k: usize = 0;
        while k < self.sessions.len()
            invariant
                k <= self.sessions@.len(),
                self.active_session_id matches Some(a) && a@ == active@,
                summary_position_from(self.sessions@, active@, 0) == summary_position_from(
                    self.sessions@,
                    active@,
                    k as int,
                ),
            decreases self.sessions.len() - k,
        {
            if str_equal(self.sessions[k].id.as_str(), active) {
                return Some(self.sessions[k].remote_session_id.as_str());
            }
            k += 1;
        }
        None
    }
}

/// Whether the active session is `session_id` and it has reached the target
/// pause state and a position within 1.5 s of the target position (targets
/// left open count as reached).
pub open spec fn target_reached(
    snapshot: SessionState,
    session_id: Seq<char>,
    target_position_ms: Option<i64>,
    target_paused: Option<bool>,
) -> bool {
    &&& snapshot.active_session_id matches Some(a) && a@ == session_id
    &&& snapshot.now_playing is Some
    &&& (target_paused matches Some(p) ==> snapshot.now_playing->0.is_paused == p)
    &&& (target_position_ms matches Some(t) ==> -1_500 <= snapshot.now_playing->0.position_ms - t
        <= 1_500)
}

/// Whether a remote seek or pause has taken effect.
pub fn remote_command_target_reached(
    snapshot: &SessionState,
    session_id: &str,
    target_position_ms: Option<i64>,
    target_paused: Option<bool>,
) -> (r: bool)
    requires
        snapshot.now_playing matches Some(np) && target_position_ms matches Some(t) ==> i64::MIN
            < np.position_ms - t <= i64::MAX,
    ensures
        r == target_reached(*snapshot, session_id@, target_position_ms, target_paused),
{
    let same = match &snapshot.active_session_id {
        Some(a) => str_equal(a.as_str(), session_id),
        None => false,
    };
    if !same {
        return false;
    }
    let now_playing = match &snapshot.now_playing {
        Some(np) => np,
        None => {
            return false;
        },
    };
    let pause_synced = match target_paused {
        Some(p) => now_playing.is_paused == p,
        None => true,
    };
    let position_synced = match target_position_ms {
        Some(t) => {
            let d = now_playing.position_ms - t;
            -1_500 <= d && d <= 1_500
        },
        None => true,
    };
    pause_synced && position_synced
}

// ---------------------------------------------------------------------------
// Scoped identifiers
// ---------------------------------------------------------------------------

/// `{kind}|{item_id}`: a history key unique across servers.
pub fn scoped_history_id(kind: MediaServerKind, item_id: &str) -> (r: String)
    ensures
        r@ == kind.id_text() + "|"@ + item_id@,
{
    let mut t: Vec<char> = Vec::new();
    append_str(&mut t, kind.as_str());
    append_str(&mut t, "|");
    append_str(&mut t, item_id);
    string_of(&t)
}

/// `{kind}|{session_id}`: a session key unique across servers.
pub fn scoped_session_id(kind: MediaServerKind, session_id: &str) -> (r: String)
    ensures
        r@ == kind.id_text() + "|"@ + session_id@,
{
    let mut t: Vec<char> = Vec::new();
    append_str(&mut t, kind.as_str());
    append_str(&mut t, "|");
    append_str(&mut t, session_id);
    string_of(&t)
}

/// `{kind}|{session_id}|{item_id}`, then `|{playback_id}` when the server
/// names playback instances: the key of one item played in one session.
pub fn scoped_playback_id(
    kind: MediaServerKind,
    session_id: &str,
    item_id: &str,
    playback_session_id: Option<&str>,
) -> (r: String)
    ensures
        r@ == kind.id_text() + "|"@ + session_id@ + "|"@ + item_id@ + (match playback_session_id {
            Some(p) => "|"@ + p@,
            None => Seq::empty(),
        }),
{
    let base = scoped_session_id(kind, session_id);
    let mut t: Vec<char> = Vec::new();
    append_str(&mut t, base.as_str());
    append_str(&mut t, "|");
    append_str(&mut t, item_id);
    match playback_session_id {
        Some(p) => {
            append_str(&mut t, "|");
            append_str(&mut t, p);
        },
        None => {},
    }
    let r = string_of(&t);
    assert(r@ =~= kind.id_text() + "|"@ + session_id@ + "|"@ + item_id@ + (match playback_session_id {
        Some(p) => "|"@ + p@,
        None => Seq::empty(),
    }));
    r
}

// ---------------------------------------------------------------------------
// Which sessions are shown and followed
// ---------------------------------------------------------------------------

/// Whether the item is an episode (by media type, any case, or by series or
/// episode metadata) named "theme" (trimmed, any case): a theme-song extra.
pub open spec fn ignored_episode(n: NowPlaying) -> bool {
    &&& (eq_ignore_case(n.media_type@, "episode"@) || n.series_name is Some || n.episode_index is Some)
    &&& eq_ignore_case(trim(n.name@), "theme"@)
}

/// Whether a playing item is a theme-song extra that is not followed.
pub fn is_ignored_episode(now_playing: &NowPlaying) -> (r: bool)
    ensures
        r == ignored_episode(*now_playing),
{
    let media_type = chars_of(now_playing.media_type.as_str());
    let is_episode = eq_ignore_case_chars(&media_type, &chars_of("episode"))
        || now_playing.series_name.is_some() || now_playing.episode_index.is_some();
    let name = chars_of(now_playing.name.as_str());
    is_episode && eq_ignore_case_chars(&trim_chars(&name), &chars_of("theme"))
}

/// How long a session stays visible after its last activity, in ms.
pub open spec fn visible_lifetime_ms(kind: MediaServerKind, paused: bool) -> int {
    if paused {
        if kind == MediaServerKind::Audiobookshelf {
            AUDIOBOOKSHELF_PAUSED_SESSION_VISIBLE_AFTER_MS as int
        } else {
            PAUSED_SESSION_VISIBLE_AFTER_MS as int
        }
    } else {
        PLAYING_SESSION_STALE_AFTER_MS as int
    }
}

/// Whether a session is still shown at `now_ms`: always without an activity
/// clock, else while its last activity is at most its lifetime old.
pub open spec fn visible_at(kind: MediaServerKind, s: Session, now_ms: i64) -> bool {
    match s.last_activity_at_ms {
        None => true,
        Some(last) => now_ms - last <= visible_lifetime_ms(kind, s.play_state.is_paused),
    }
}

pub fn session_is_visible(kind: MediaServerKind, session: &Session, now_ms: i64) -> (r: bool)
    ensures
        r == visible_at(kind, *session, now_ms),
{
    let last = match session.last_activity_at_ms {
        Some(t) => t,
        None => {
            return true;
        },
    };
    let diff: i128 = now_ms as i128 - last as i128;
    let age: u64 = if diff < 0 {
        0
    } else if diff > i64::MAX as i128 {
        i64::MAX as u64
    } else {
        diff as u64
    };
    let lifetime: u64 = if session.play_state.is_paused {
        if kind == MediaServerKind::Audiobookshelf {
            AUDIOBOOKSHELF_PAUSED_SESSION_VISIBLE_AFTER_MS
        } else {
            PAUSED_SESSION_VISIBLE_AFTER_MS
        }
    } else {
        PLAYING_SESSION_STALE_AFTER_MS
    };
    age <= lifetime
}

/// Whether the playing item has an audio stream in exactly the language.
pub open spec fn plays_language(s: Session, lang: Seq<char>) -> bool {
    s.now_playing matches Some(np) && exists|k: int|
        0 <= k < np.media_streams@.len() && stream_has_language(
            #[trigger] np.media_streams@[k],
            StreamType::Audio,
            lang,
        )
}

/// `bool::cmp`: `false` before `true`.
pub open spec fn bool_order(a: bool, b: bool) -> Ordering {
    if a == b {
        Ordering::Equal
    } else if !a {
        Ordering::Less
    } else {
        Ordering::Greater
    }
}

/// `Option::cmp` on timestamps: `None` first, then by value.
pub open spec fn timestamp_order(a: Option<i64>, b: Option<i64>) -> Ordering {
    match (a, b) {
        (None, None) => Ordering::Equal,
        (None, Some(_)) => Ordering::Less,
        (Some(_), None) => Ordering::Greater,
        (Some(x), Some(y)) => if x < y {
            Ordering::Less
        } else if x == y {
            Ordering::Equal
        } else {
            Ordering::Greater
        },
    }
}


/// Lexicographic order of texts by character, which is the byte order of
/// their UTF-8 encodings (`str::cmp`).
pub open spec fn text_order(a: Seq<char>, b: Seq<char>) -> Ordering {
    if a == b {
        Ordering::Equal
    } else if text_less(a, b) {
        Ordering::Less
    } else {
        Ordering::Greater
    }
}

/// `Ordering::then`.
pub open spec fn then_order(first: Ordering, next: Ordering) -> Ordering {
    if first == Ordering::Equal {
        next
    } else {
        first
    }
}

/// The order in which sessions are considered for automatic following:
/// playing before paused, then those playing the target language, then the
/// most recently active, then by ID.
pub open spec fn auto_priority(left: Session, right: Session, target: Seq<char>) -> Ordering {
    then_order(
        bool_order(!right.play_state.is_paused, !left.play_state.is_paused),
        then_order(
            bool_order(plays_language(right, target), plays_language(left, target)),
            then_order(
                timestamp_order(right.last_activity_at_ms, left.last_activity_at_ms),
                text_order(left.id@, right.id@),
            ),
        ),
    )
}

fn order_bools(a: bool, b: bool) -> (r: Ordering)
    ensures
        r == bool_order(a, b),
{
    if a == b {
        Ordering::Equal
    } else if !a {
        Ordering::Less
    } else {
        Ordering::Greater
    }
}

fn order_timestamps(a: Option<i64>, b: Option<i64>) -> (r: Ordering)
    ensures
        r == timestamp_order(a, b),
{
    match (a, b) {
        (None, None) => Ordering::Equal,
        (None, Some(_)) => Ordering::Less,
        (Some(_), None) => Ordering::Greater,
        (Some(x), Some(y)) => if x < y {
            Ordering::Less
        } else if x == y {
            Ordering::Equal
        } else {
            Ordering::Greater
        },
    }
}


fn order_texts(a: &str, b: &str) -> (r: Ordering)
    ensures
        r == text_order(a@, b@),
{
    let x = chars_of(a);
    let y = chars_of(b);
    if seq_equal(&x, &y) {
        Ordering::Equal
    } else if text_less_exec(&x, &y) {
        Ordering::Less
    } else {
        Ordering::Greater
    }
}

fn plays_language_exec(s: &Session, lang: &str) -> (r: bool)
    ensures
        r == plays_language(*s, lang@),
{
    match &s.now_playing {
        Some(np) => np.has_audio_language(lang),
        None => false,
    }
}

/// Compares two sessions for automatic following; the lesser comes first.
pub fn compare_auto_session_priority(left: &Session, right: &Session, target_language: &str) -> (r: Ordering)
    ensures
        r == auto_priority(*left, *right, target_language@),
{
    let left_playing = !left.play_state.is_paused;
    let right_playing = !right.play_state.is_paused;
    let left_target = plays_language_exec(left, target_language);
    let right_target = plays_language_exec(right, target_language);
    let first = order_bools(right_playing, left_playing);
    match first {
        Ordering::Equal => {},
        _ => {
            return first;
        },
    }
    let second = order_bools(right_target, left_target);
    match second {
        Ordering::Equal => {},
        _ => {
            return second;
        },
    }
    let third = order_timestamps(right.last_activity_at_ms, left.last_activity_at_ms);
    match third {
        Ordering::Equal => {},
        _ => {
            return third;
        },
    }
    order_texts(left.id.as_str(), right.id.as_str())
}

// ---------------------------------------------------------------------------
// Languages
// ---------------------------------------------------------------------------

/// ASCII letters and digits.
pub open spec fn is_ascii_alnum(c: char) -> bool {
    ('a' <= c <= 'z') || ('A' <= c <= 'Z') || ('0' <= c <= '9')
}

/// A language tag reduced for comparison: trimmed, ASCII lower case, `_`
/// turned into `-`, and only ASCII letters, digits and `-` kept.
pub open spec fn language_tag(s: Seq<char>) -> Seq<char> {
    lower_seq(trim(s)).map_values(|c: char| if c == '_' { '-' } else { c }).filter(
        |c: char| is_ascii_alnum(c) || c == '-',
    )
}

/// The part of a tag before its first `-`.
pub open spec fn tag_base(s: Seq<char>) -> Seq<char> {
    s.take(next_index_of(s, '-', 0))
}

/// The alias group of a normalized language tag: the two-letter, three-letter
/// and English names of one language share a group.
pub open spec fn alias_group(s: Seq<char>) -> Option<nat> {
    if s == "ja"@ || s == "jp"@ || s == "jpn"@ || s == "japanese"@ {
        Some(0nat)
    } else if s == "en"@ || s == "eng"@ || s == "english"@ {
        Some(1nat)
    } else if s == "es"@ || s == "spa"@ || s == "spanish"@ {
        Some(2nat)
    } else if s == "de"@ || s == "ger"@ || s == "deu"@ || s == "german"@ {
        Some(3nat)
    } else if s == "fr"@ || s == "fre"@ || s == "fra"@ || s == "french"@ {
        Some(4nat)
    } else if s == "it"@ || s == "ita"@ || s == "italian"@ {
        Some(5nat)
    } else if s == "pt"@ || s == "por"@ || s == "portuguese"@ {
        Some(6nat)
    } else if s == "zh"@ || s == "zho"@ || s == "chi"@ || s == "chinese"@ {
        Some(7nat)
    } else if s == "ko"@ || s == "kor"@ || s == "korean"@ {
        Some(8nat)
    } else if s == "ru"@ || s == "rus"@ || s == "russian"@ {
        Some(9nat)
    } else if s == "ar"@ || s == "ara"@ || s == "arabic"@ {
        Some(10nat)
    } else if s == "tr"@ || s == "tur"@ || s == "turkish"@ {
        Some(11nat)
    } else if s == "pl"@ || s == "pol"@ || s == "polish"@ {
        Some(12nat)
    } else if s == "nl"@ || s == "dut"@ || s == "nld"@ || s == "dutch"@ {
        Some(13nat)
    } else if s == "sv"@ || s == "swe"@ || s == "swedish"@ {
        Some(14nat)
    } else if s == "no"@ || s == "nor"@ || s == "norwegian"@ {
        Some(15nat)
    } else if s == "da"@ || s == "dan"@ || s == "danish"@ {
        Some(16nat)
    } else if s == "fi"@ || s == "fin"@ || s == "finnish"@ {
        Some(17nat)
    } else if s == "cs"@ || s == "cze"@ || s == "ces"@ || s == "czech"@ {
        Some(18nat)
    } else if s == "el"@ || s == "gre"@ || s == "ell"@ || s == "greek"@ {
        Some(19nat)
    } else if s == "ro"@ || s == "rum"@ || s == "ron"@ || s == "romanian"@ {
        Some(20nat)
    } else if s == "hu"@ || s == "hun"@ || s == "hungarian"@ {
        Some(21nat)
    } else if s == "vi"@ || s == "vie"@ || s == "vietnamese"@ {
        Some(22nat)
    } else if s == "th"@ || s == "tha"@ || s == "thai"@ {
        Some(23nat)
    } else if s == "id"@ || s == "ind"@ || s == "indonesian"@ {
        Some(24nat)
    } else {
        None
    }
}

/// Whether a language tag names the target language: equal normalized tags,
/// equal base tags, or base tags in one alias group.
pub open spec fn language_matches(language: Option<Seq<char>>, target: Seq<char>) -> bool {
    match language {
        None => false,
        Some(l) => {
            let nl = language_tag(l);
            let nt = language_tag(target);
            &&& nl.len() > 0
            &&& nt.len() > 0
            &&& (nl == nt || tag_base(nl) == tag_base(nt) || (alias_group(tag_base(nl)) is Some
                && alias_group(tag_base(nl)) == alias_group(tag_base(nt))))
        },
    }
}

fn normalize_language_tag(value: &str) -> (r: Vec<char>)
    ensures
        r@ == language_tag(value@),
{
    let v = chars_of(value);
    let t = trim_chars(&v);
    let l = lower_chars(&t);
    let ghost mapped = l@.map_values(|c: char| if c == '_' { '-' } else { c });
    let mut r: Vec<char> = Vec::new();
    let mut i: usize = 0;
    while i < l.len()
        invariant
            i <= l@.len(),
            mapped == l@.map_values(|c: char| if c == '_' { '-' } else { c }),
            r@ == mapped.take(i as int).filter(|c: char| is_ascii_alnum(c) || c == '-'),
        decreases l.len() - i,
    {
        let c = if l[i] == '_' {
            '-'
        } else {
            l[i]
        };
        proof {
            let t2 = mapped.take(i + 1);
            assert(t2.drop_last() =~= mapped.take(i as int));
            assert(t2.last() == c);
            reveal(Seq::filter);
        }
        if ('a' <= c && c <= 'z') || ('A' <= c && c <= 'Z') || ('0' <= c && c <= '9') || c == '-' {
            r.push(c);
        }
        i += 1;
    }
    assert(mapped.take(l@.len() as int) =~= mapped);
    r
}

fn tag_base_exec(s: &[char]) -> (r: Vec<char>)
    ensures
        r@ == tag_base(s@),
{
    proof {
        lemma_next_index_of(s@, '-', 0);
    }
    let j = find_char_from(s, '-', 0);
    let r = slice_vec(s, 0, j);
    assert(r@ =~= s@.take(j as int));
    r
}

fn language_alias_group(s: &[char]) -> (r: Option<u64>)
    ensures
        match r {
            Some(g) => alias_group(s@) == Some(g as nat),
            None => alias_group(s@) is None,
        },
{
    if chars_are(s, "ja") || chars_are(s, "jp") || chars_are(s, "jpn") || chars_are(s, "japanese") {
        Some(0)
    } else if chars_are(s, "en") || chars_are(s, "eng") || chars_are(s, "english") {
        Some(1)
    } else if chars_are(s, "es") || chars_are(s, "spa") || chars_are(s, "spanish") {
        Some(2)
    } else if chars_are(s, "de") || chars_are(s, "ger") || chars_are(s, "deu") || chars_are(s, "german") {
        Some(3)
    } else if chars_are(s, "fr") || chars_are(s, "fre") || chars_are(s, "fra") || chars_are(s, "french") {
        Some(4)
    } else if chars_are(s, "it") || chars_are(s, "ita") || chars_are(s, "italian") {
        Some(5)
    } else if chars_are(s, "pt") || chars_are(s, "por") || chars_are(s, "portuguese") {
        Some(6)
    } else if chars_are(s, "zh") || chars_are(s, "zho") || chars_are(s, "chi") || chars_are(s, "chinese") {
        Some(7)
    } else if chars_are(s, "ko") || chars_are(s, "kor") || chars_are(s, "korean") {
        Some(8)
    } else if chars_are(s, "ru") || chars_are(s, "rus") || chars_are(s, "russian") {
        Some(9)
    } else if chars_are(s, "ar") || chars_are(s, "ara") || chars_are(s, "arabic") {
        Some(10)
    } else if chars_are(s, "tr") || chars_are(s, "tur") || chars_are(s, "turkish") {
        Some(11)
    } else if chars_are(s, "pl") || chars_are(s, "pol") || chars_are(s, "polish") {
        Some(12)
    } else if chars_are(s, "nl") || chars_are(s, "dut") || chars_are(s, "nld") || chars_are(s, "dutch") {
        Some(13)
    } else if chars_are(s, "sv") || chars_are(s, "swe") || chars_are(s, "swedish") {
        Some(14)
    } else if chars_are(s, "no") || chars_are(s, "nor") || chars_are(s, "norwegian") {
        Some(15)
    } else if chars_are(s, "da") || chars_are(s, "dan") || chars_are(s, "danish") {
        Some(16)
    } else if chars_are(s, "fi") || chars_are(s, "fin") || chars_are(s, "finnish") {
        Some(17)
    } else if chars_are(s, "cs") || chars_are(s, "cze") || chars_are(s, "ces") || chars_are(s, "czech") {
        Some(18)
    } else if chars_are(s, "el") || chars_are(s, "gre") || chars_are(s, "ell") || chars_are(s, "greek") {
        Some(19)
    } else if chars_are(s, "ro") || chars_are(s, "rum") || chars_are(s, "ron") || chars_are(s, "romanian") {
        Some(20)
    } else if chars_are(s, "hu") || chars_are(s, "hun") || chars_are(s, "hungarian") {
        Some(21)
    } else if chars_are(s, "vi") || chars_are(s, "vie") || chars_are(s, "vietnamese") {
        Some(22)
    } else if chars_are(s, "th") || chars_are(s, "tha") || chars_are(s, "thai") {
        Some(23)
    } else if chars_are(s, "id") || chars_are(s, "ind") || chars_are(s, "indonesian") {
        Some(24)
    } else {
        None
    }
}

/// Whether a stream's language names the target language.
pub fn language_matches_target(language: Option<&str>, target_lang: &str) -> (r: bool)
    ensures
        r == language_matches(
            match language {
                Some(l) => Some(l@),
                None => None,
            },
            target_lang@,
        ),
{
    let l = match language {
        Some(l) => l,
        None => {
            return false;
        },
    };
    let nl = normalize_language_tag(l);
    let nt = normalize_language_tag(target_lang);
    if nl.len() == 0 || nt.len() == 0 {
        return false;
    }
    if seq_equal(&nl, &nt) {
        return true;
    }
    let lb = tag_base_exec(&nl);
    let tb = tag_base_exec(&nt);
    if seq_equal(&lb, &tb) {
        return true;
    }
    match (language_alias_group(&lb), language_alias_group(&tb)) {
        (Some(a), Some(b)) => a == b,
        _ => false,
    }
}

// ---------------------------------------------------------------------------
// Audio tracks
// ---------------------------------------------------------------------------

/// An audio track of the playing item.
pub struct AudioTrack {
    /// Absolute stream index.
    pub index: u32,
    pub codec: Option<String>,
    pub language: Option<String>,
    pub display_title: Option<String>,
    pub title: Option<String>,
    pub is_default: bool,
    /// Channel layout such as `2.0` or `5.1`, read from the display title.
    pub channels: Option<String>,
}

/// The separators of display-title parts.
pub open spec fn is_part_separator(c: char) -> bool {
    c == '-' || c == '(' || c == ')'
}

/// The first separator at or after `i`, or the length.
pub open spec fn next_part_separator(s: Seq<char>, i: int) -> int
    decreases s.len() - i,
{
    if i < 0 || i >= s.len() {
        s.len() as int
    } else if is_part_separator(s[i]) {
        i
    } else {
        next_part_separator(s, i + 1)
    }
}

/// A channel layout: a `.`, at most four characters, all ASCII digits or
/// `.` (so characters and bytes agree).
pub open spec fn is_channel_layout(p: Seq<char>) -> bool {
    &&& p.contains('.')
    &&& p.len() <= 4
    &&& forall|k: int| 0 <= k < p.len() ==> is_digit(#[trigger] p[k]) || p[k] == '.'
}

/// The first trimmed part of a display title, from `i` on, that is a
/// channel layout; parts are separated by `-`, `(` and `)`.
pub open spec fn channel_part_from(s: Seq<char>, i: int) -> Option<Seq<char>>
    decreases s.len() + 1 - i,
{
    if i < 0 || i > s.len() {
        None
    } else {
        let j = next_part_separator(s, i);
        let piece = trim(s.subrange(i, j));
        if is_channel_layout(piece) {
            Some(piece)
        } else if j >= s.len() || j < i {
            None
        } else {
            channel_part_from(s, j + 1)
        }
    }
}

proof fn lemma_next_part_separator(s: Seq<char>, i: int)
    requires
        0 <= i <= s.len(),
    ensures
        i <= next_part_separator(s, i) <= s.len(),
        forall|k: int| i <= k < next_part_separator(s, i) ==> !is_part_separator(#[trigger] s[k]),
        next_part_separator(s, i) < s.len() ==> is_part_separator(s[next_part_separator(s, i)]),
    decreases s.len() - i,
{
    if i < s.len() && !is_part_separator(s[i]) {
        lemma_next_part_separator(s, i + 1);
    }
}

fn is_channel_layout_exec(p: &[char]) -> (r: bool)
    ensures
        r == is_channel_layout(p@),
{
    if p.len() > 4 {
        return false;
    }
    let mut has_dot = false;
    let mut k: usize = 0;
    while k < p.len()
        invariant
            k <= p@.len(),
            has_dot == p@.take(k as int).contains('.'),
            forall|t: int| 0 <= t < k ==> is_digit(#[trigger] p@[t]) || p@[t] == '.',
        decreases p.len() - k,
    {
        let c = p[k];
        if !(('0' <= c && c <= '9') || c == '.') {
            return false;
        }
        proof {
            assert(p@.take(k + 1) =~= p@.take(k as int).push(c));
            if c == '.' {
                assert(p@.take(k + 1)[k as int] == '.');
            }
            if has_dot {
                let w = choose|w: int| 0 <= w < k && p@.take(k as int)[w] == '.';
                assert(p@.take(k + 1)[w] == '.');
            }
        }
        if c == '.' {
            has_dot = true;
        }
        k += 1;
    }
    assert(p@.take(p@.len() as int) =~= p@);
    has_dot
}

/// The channel layout named in a display title, if any.
fn channels_of(title: &str) -> (r: Option<Vec<char>>)
    ensures
        match r {
            Some(v) => channel_part_from(title@, 0) == Some(v@),
            None => channel_part_from(title@, 0) is None,
        },
{
    let s = chars_of(title);
    let mut i: usize = 0;
    while i <= s.len()
        invariant
            i <= s@.len() + 1,
            s@ == title@,
            channel_part_from(s@, 0) == channel_part_from(s@, i as int),
        decreases s@.len() + 1 - i,
    {
        proof {
            lemma_next_part_separator(s@, i as int);
        }
        let mut j = i;
        while j < s.len() && !(s[j] == '-' || s[j] == '(' || s[j] == ')')
            invariant
                i <= j <= s@.len(),
                forall|k: int| i <= k < j ==> !is_part_separator(#[trigger] s@[k]),
                next_part_separator(s@, i as int) == next_part_separator(s@, j as int),
            decreases s.len() - j,
        {
            j += 1;
        }
        let piece = trim_chars(&slice_vec(&s, i, j));
        if is_channel_layout_exec(&piece) {
            return Some(piece);
        }
        if j >= s.len() {
            return None;
        }
        i = j + 1;
    }
    None
}

/// The plain content of an audio track.
pub open spec fn track_view(t: AudioTrack) -> (
    u32,
    Option<Seq<char>>,
    Option<Seq<char>>,
    Option<Seq<char>>,
    Option<Seq<char>>,
    bool,
    Option<Seq<char>>,
) {
    (
        t.index,
        opt_view(t.codec),
        opt_view(t.language),
        opt_view(t.display_title),
        opt_view(t.title),
        t.is_default,
        opt_view(t.channels),
    )
}

/// The audio track described by an audio stream.
pub open spec fn track_of_stream(s: MediaStream) -> (
    u32,
    Option<Seq<char>>,
    Option<Seq<char>>,
    Option<Seq<char>>,
    Option<Seq<char>>,
    bool,
    Option<Seq<char>>,
) {
    (
        s.index,
        opt_view(s.codec),
        opt_view(s.language),
        opt_view(s.display_title),
        opt_view(s.title),
        s.is_default,
        match s.display_title {
            Some(d) => channel_part_from(d@, 0),
            None => None,
        },
    )
}

/// The audio tracks of a stream list, in order.
pub fn audio_tracks_from_streams(streams: &[MediaStream]) -> (r: Vec<AudioTrack>)
    ensures
        r@.map_values(|t: AudioTrack| track_view(t)) == streams@.filter(
            |s: MediaStream| s.stream_type == StreamType::Audio,
        ).map_values(|s: MediaStream| track_of_stream(s)),
{
    let mut r: Vec<AudioTrack> = Vec::new();
    let mut k: usize = 0;
    while k < streams.len()
        invariant
            k <= streams@.len(),
            r@.map_values(|t: AudioTrack| track_view(t)) == streams@.take(k as int).filter(
                |s: MediaStream| s.stream_type == StreamType::Audio,
            ).map_values(|s: MediaStream| track_of_stream(s)),
        decreases streams.len() - k,
    {
        let s = &streams[k];
        proof {
            let t = streams@.take(k + 1);
            assert(t.drop_last() =~= streams@.take(k as int));
            assert(t.last() == *s);
            reveal(Seq::filter);
        }
        let ghost before = r@.map_values(|t: AudioTrack| track_view(t));
        if s.stream_type == StreamType::Audio {
            let channels = match &s.display_title {
                Some(d) => match channels_of(d.as_str()) {
                    Some(v) => Some(string_of(&v)),
                    None => None,
                },
                None => None,
            };
            let track = AudioTrack {
                index: s.index,
                codec: clone_opt(&s.codec),
                language: clone_opt(&s.language),
                display_title: clone_opt(&s.display_title),
                title: clone_opt(&s.title),
                is_default: s.is_default,
                channels,
            };
            assert(track_view(track) == track_of_stream(*s));
            r.push(track);
            assert(r@.map_values(|t: AudioTrack| track_view(t)) =~= before.push(track_of_stream(*s)));
            assert(streams@.take(k + 1).filter(|s: MediaStream| s.stream_type == StreamType::Audio)
                =~= streams@.take(k as int).filter(
                |s: MediaStream| s.stream_type == StreamType::Audio,
            ).push(*s));
        } else {
            assert(r@.map_values(|t: AudioTrack| track_view(t)) =~= before);
        }
        k += 1;
    }
    assert(streams@.take(streams@.len() as int) =~= streams@);
    r
}

/// The position of the first track in the target language, from `k` on.
pub open spec fn first_track_in_language(tracks: Seq<AudioTrack>, target: Seq<char>, k: int) -> Option<int>
    decreases tracks.len() - k,
{
    if k < 0 || k >= tracks.len() {
        None
    } else if language_matches(opt_view(tracks[k].language), target) {
        Some(k)
    } else {
        first_track_in_language(tracks, target, k + 1)
    }
}

/// The audio track to use and how it was chosen: the user's choice when it
/// exists; the only track; the first track in the target language; or none,
/// leaving the choice to the user.
pub open spec fn audio_choice(tracks: Seq<AudioTrack>, target: Seq<char>, user_override: Option<u32>) -> (
    Option<u32>,
    AudioTrackResolution,
) {
    if user_override matches Some(i) && exists|k: int| 0 <= k < tracks.len() && #[trigger] tracks[k].index == i {
        (user_override, AudioTrackResolution::Manual)
    } else if tracks.len() <= 1 {
        (
            if tracks.len() == 1 {
                Some(tracks[0].index)
            } else {
                None
            },
            AudioTrackResolution::Single,
        )
    } else {
        match first_track_in_language(tracks, target, 0) {
            Some(k) => (Some(tracks[k].index), AudioTrackResolution::AutoLanguage),
            None => (None, AudioTrackResolution::NeedsSelection),
        }
    }
}

/// Chooses the audio track (see [`audio_choice`]).
pub fn resolve_audio_track(tracks: &[AudioTrack], target_lang: &str, user_override: Option<u32>) -> (r: (
    Option<u32>,
    AudioTrackResolution,
))
    ensures
        r == audio_choice(tracks@, target_lang@, user_override),
{
    if let Some(idx) = user_override {
        let mut k: usize = 0;
        while k < tracks.len()
            invariant
                k <= tracks@.len(),
                user_override == Some(idx),
                forall|t: int| 0 <= t < k ==> #[trigger] tracks@[t].index != idx,
            decreases tracks.len() - k,
        {
            if tracks[k].index == idx {
                assert(tracks@[k as int].index == idx);
                return (Some(idx), AudioTrackResolution::Manual);
            }
            k += 1;
        }
    }
    let ghost no_override = !(user_override matches Some(i) && exists|t: int|
        0 <= t < tracks@.len() && #[trigger] tracks@[t].index == i);
    assert(no_override);
    if tracks.len() <= 1 {
        let first = if tracks.len() == 1 {
            Some(tracks[0].index)
        } else {
            None
        };
        return (first, AudioTrackResolution::Single);
    }
    let mut k: usize = 0;
    while k < tracks.len()
        invariant
            k <= tracks@.len(),
            first_track_in_language(tracks@, target_lang@, 0) == first_track_in_language(
                tracks@,
                target_lang@,
                k as int,
            ),
            no_override == !(user_override matches Some(i) && exists|t: int|
                0 <= t < tracks@.len() && #[trigger] tracks@[t].index == i),
            no_override,
            tracks@.len() > 1,
        decreases tracks.len() - k,
    {
        let lang = match &tracks[k].language {
            Some(l) => Some(l.as_str()),
            None => None,
        };
        if language_matches_target(lang, target_lang) {
            return (Some(tracks[k].index), AudioTrackResolution::AutoLanguage);
        }
        k += 1;
    }
    (None, AudioTrackResolution::NeedsSelection)
}

// ---------------------------------------------------------------------------
// Subtitle candidates
// ---------------------------------------------------------------------------

/// A subtitle track that can be loaded for the playing item.
pub struct SubtitleCandidate {
    pub id: String,
    pub source: SubtitleCandidateSource,
    pub stream_index: Option<u32>,
    pub language: Option<String>,
    pub label: String,
    pub codec: Option<String>,
    pub is_default: bool,
    pub is_external: bool,
    pub is_selected_in_session: bool,
    /// Filename similarity (percent) for fuzzy sidecar fallbacks.
    pub match_confidence: Option<u8>,
    /// The sidecar file, for sidecar candidates.
    pub local_path: Option<String>,
    /// Whether a sidecar's base name is exactly the media's base name.
    pub is_exact_file_match: bool,
}

/// Whether two candidates hold the same values.
pub open spec fn same_candidate(a: SubtitleCandidate, b: SubtitleCandidate) -> bool {
    &&& a.id@ == b.id@
    &&& a.source == b.source
    &&& a.stream_index == b.stream_index
    &&& opt_view(a.language) == opt_view(b.language)
    &&& a.label@ == b.label@
    &&& opt_view(a.codec) == opt_view(b.codec)
    &&& a.is_default == b.is_default
    &&& a.is_external == b.is_external
    &&& a.is_selected_in_session == b.is_selected_in_session
    &&& a.match_confidence == b.match_confidence
    &&& opt_view(a.local_path) == opt_view(b.local_path)
    &&& a.is_exact_file_match == b.is_exact_file_match
}

impl Clone for SubtitleCandidate {
    fn clone(&self) -> (r: Self)
        ensures
            same_candidate(r, *self),
    {
        SubtitleCandidate {
            id: self.id.clone(),
            source: self.source,
            stream_index: self.stream_index,
            language: clone_opt(&self.language),
            label: self.label.clone(),
            codec: clone_opt(&self.codec),
            is_default: self.is_default,
            is_external: self.is_external,
            is_selected_in_session: self.is_selected_in_session,
            match_confidence: self.match_confidence,
            local_path: clone_opt(&self.local_path),
            is_exact_file_match: self.is_exact_file_match,
        }
    }
}

/// The preferences by which a subtitle track is chosen automatically, in
/// the order they are tried.
#[derive(Clone, Copy, Debug, PartialEq, Eq, Structural)]
pub enum CandidatePreference {
    /// A sidecar named exactly as the media file.
    ExactSidecar,
    /// A sidecar in the target language.
    SidecarInLanguage,
    /// Any track in the target language.
    InLanguage,
    /// The track the player has selected.
    SelectedInSession,
    /// The default track.
    Default,
    /// A sidecar without a language.
    SidecarWithoutLanguage,
    /// Any sidecar.
    Sidecar,
}

/// Whether a candidate satisfies a preference.
pub open spec fn satisfies(p: CandidatePreference, c: SubtitleCandidate, target: Seq<char>) -> bool {
    match p {
        CandidatePreference::ExactSidecar => c.source == SubtitleCandidateSource::Sidecar
            && c.is_exact_file_match,
        CandidatePreference::SidecarInLanguage => c.source == SubtitleCandidateSource::Sidecar
            && language_matches(opt_view(c.language), target),
        CandidatePreference::InLanguage => language_matches(opt_view(c.language), target),
        CandidatePreference::SelectedInSession => c.is_selected_in_session,
        CandidatePreference::Default => c.is_default,
        CandidatePreference::SidecarWithoutLanguage => c.source == SubtitleCandidateSource::Sidecar
            && c.language is None,
        CandidatePreference::Sidecar => c.source == SubtitleCandidateSource::Sidecar,
    }
}

/// The position of the first candidate satisfying a preference, from `k` on.
pub open spec fn first_satisfying(
    cs: Seq<SubtitleCandidate>,
    p: CandidatePreference,
    target: Seq<char>,
    k: int,
) -> Option<int>
    decreases cs.len() - k,
{
    if k < 0 || k >= cs.len() {
        None
    } else if satisfies(p, cs[k], target) {
        Some(k)
    } else {
        first_satisfying(cs, p, target, k + 1)
    }
}

/// The position of the first candidate with the given ID, from `k` on.
pub open spec fn first_with_id(cs: Seq<SubtitleCandidate>, id: Seq<char>, k: int) -> Option<int>
    decreases cs.len() - k,
{
    if k < 0 || k >= cs.len() {
        None
    } else if cs[k].id@ == id {
        Some(k)
    } else {
        first_with_id(cs, id, k + 1)
    }
}

/// The candidate to load and how it was chosen: the user's choice when it
/// is listed; else, for AudioBookShelf, an exact-name sidecar; else the
/// first candidate meeting the other preferences in turn; else the first.
pub open spec fn subtitle_choice(
    cs: Seq<SubtitleCandidate>,
    target: Seq<char>,
    chosen_id: Option<Seq<char>>,
    kind: MediaServerKind,
) -> (Option<int>, SubtitleSelectionMode) {
    let auto = SubtitleSelectionMode::Auto;
    if chosen_id matches Some(id) && first_with_id(cs, id, 0) is Some {
        (first_with_id(cs, chosen_id->0, 0), SubtitleSelectionMode::Manual)
    } else if kind == MediaServerKind::Audiobookshelf && first_satisfying(
        cs,
        CandidatePreference::ExactSidecar,
        target,
        0,
    ) is Some {
        (first_satisfying(cs, CandidatePreference::ExactSidecar, target, 0), auto)
    } else if first_satisfying(cs, CandidatePreference::SidecarInLanguage, target, 0) is Some {
        (first_satisfying(cs, CandidatePreference::SidecarInLanguage, target, 0), auto)
    } else if first_satisfying(cs, CandidatePreference::InLanguage, target, 0) is Some {
        (first_satisfying(cs, CandidatePreference::InLanguage, target, 0), auto)
    } else if first_satisfying(cs, CandidatePreference::SelectedInSession, target, 0) is Some {
        (first_satisfying(cs, CandidatePreference::SelectedInSession, target, 0), auto)
    } else if first_satisfying(cs, CandidatePreference::Default, target, 0) is Some {
        (first_satisfying(cs, CandidatePreference::Default, target, 0), auto)
    } else if first_satisfying(cs, CandidatePreference::SidecarWithoutLanguage, target, 0) is Some {
        (first_satisfying(cs, CandidatePreference::SidecarWithoutLanguage, target, 0), auto)
    } else if first_satisfying(cs, CandidatePreference::Sidecar, target, 0) is Some {
        (first_satisfying(cs, CandidatePreference::Sidecar, target, 0), auto)
    } else if cs.len() > 0 {
        (Some(0), auto)
    } else {
        (None, auto)
    }
}

fn satisfies_exec(p: CandidatePreference, c: &SubtitleCandidate, target: &str) -> (r: bool)
    ensures
        r == satisfies(p, *c, target@),
{
    let lang = match &c.language {
        Some(l) => Some(l.as_str()),
        None => None,
    };
    let sidecar = c.source == SubtitleCandidateSource::Sidecar;
    match p {
        CandidatePreference::ExactSidecar => sidecar && c.is_exact_file_match,
        CandidatePreference::SidecarInLanguage => sidecar && language_matches_target(lang, target),
        CandidatePreference::InLanguage => language_matches_target(lang, target),
        CandidatePreference::SelectedInSession => c.is_selected_in_session,
        CandidatePreference::Default => c.is_default,
        CandidatePreference::SidecarWithoutLanguage => sidecar && c.language.is_none(),
        CandidatePreference::Sidecar => sidecar,
    }
}

fn find_satisfying(cs: &[SubtitleCandidate], p: CandidatePreference, target: &str) -> (r: Option<usize>)
    ensures
        match r {
            Some(k) => first_satisfying(cs@, p, target@, 0) == Some(k as int) && k < cs@.len(),
            None => first_satisfying(cs@, p, target@, 0) is None,
        },
{
    let mut k: usize = 0;
    while k < cs.len()
        invariant
            k <= cs@.len(),
            first_satisfying(cs@, p, target@, 0) == first_satisfying(cs@, p, target@, k as int),
        decreases cs.len() - k,
    {
        if satisfies_exec(p, &cs[k], target) {
            return Some(k);
        }
        k += 1;
    }
    None
}

/// Chooses the subtitle candidate to load (see [`subtitle_choice`]).
pub fn resolve_subtitle_candidate(
    candidates: &[SubtitleCandidate],
    target_lang: &str,
    override_candidate_id: Option<&str>,
    server_kind: MediaServerKind,
) -> (r: (Option<SubtitleCandidate>, SubtitleSelectionMode))
    ensures
        ({
            let (k, mode) = subtitle_choice(
                candidates@,
                target_lang@,
                match override_candidate_id {
                    Some(i) => Some(i@),
                    None => None,
                },
                server_kind,
            );
            &&& r.1 == mode
            &&& match k {
                Some(k) => 0 <= k < candidates@.len() && (r.0 matches Some(c) && same_candidate(
                    c,
                    candidates@[k],
                )),
                None => r.0 is None,
            }
        }),
{
    if let Some(candidate_id) = override_candidate_id {
        let mut k: usize = 0;
        while k < candidates.len()
            invariant
                k <= candidates@.len(),
                override_candidate_id == Some(candidate_id),
                first_with_id(candidates@, candidate_id@, 0) == first_with_id(
                    candidates@,
                    candidate_id@,
                    k as int,
                ),
            decreases candidates.len() - k,
        {
            if str_equal(candidates[k].id.as_str(), candidate_id) {
                return (Some(candidates[k].clone()), SubtitleSelectionMode::Manual);
            }
            k += 1;
        }
    }
    if server_kind == MediaServerKind::Audiobookshelf {
        if let Some(k) = find_satisfying(candidates, CandidatePreference::ExactSidecar, target_lang) {
            return (Some(candidates[k].clone()), SubtitleSelectionMode::Auto);
        }
    }
    if let Some(k) = find_satisfying(candidates, CandidatePreference::SidecarInLanguage, target_lang) {
        return (Some(candidates[k].clone()), SubtitleSelectionMode::Auto);
    }
    if let Some(k) = find_satisfying(candidates, CandidatePreference::InLanguage, target_lang) {
        return (Some(candidates[k].clone()), SubtitleSelectionMode::Auto);
    }
    if let Some(k) = find_satisfying(candidates, CandidatePreference::SelectedInSession, target_lang) {
        return (Some(candidates[k].clone()), SubtitleSelectionMode::Auto);
    }
    if let Some(k) = find_satisfying(candidates, CandidatePreference::Default, target_lang) {
        return (Some(candidates[k].clone()), SubtitleSelectionMode::Auto);
    }
    if let Some(k) = find_satisfying(
        candidates,
        CandidatePreference::SidecarWithoutLanguage,
        target_lang,
    ) {
        return (Some(candidates[k].clone()), SubtitleSelectionMode::Auto);
    }
    if let Some(k) = find_satisfying(candidates, CandidatePreference::Sidecar, target_lang) {
        return (Some(candidates[k].clone()), SubtitleSelectionMode::Auto);
    }
    if candidates.len() > 0 {
        (Some(candidates[0].clone()), SubtitleSelectionMode::Auto)
    } else {
        (None, SubtitleSelectionMode::Auto)
    }
}

// ---------------------------------------------------------------------------
// Sidecar subtitle files
// ---------------------------------------------------------------------------

pub proof fn lemma_without_trailing_slashes_len(s: Seq<char>)
    ensures
        without_trailing_slashes(s).len() <= s.len(),
    decreases s.len(),
{
    if s.len() > 0 && s.last() == '/' {
        lemma_without_trailing_slashes_len(s.drop_last());
    }
}

pub proof fn lemma_after_last_len(s: Seq<char>, c: char)
    ensures
        after_last(s, c).len() <= s.len(),
        after_last(s, c).len() == s.len() ==> after_last(s, c) == s && !s.contains(c),
        after_last(s, c).len() < s.len() ==> s[s.len() - after_last(s, c).len() - 1] == c
            && after_last(s, c) == s.skip(s.len() - after_last(s, c).len()),
    decreases s.len(),
{
    if s.len() > 0 && s.last() != c {
        lemma_after_last_len(s.drop_last(), c);
        let a = after_last(s.drop_last(), c);
        if a.len() == s.drop_last().len() {
            assert(a.push(s.last()) =~= s);
            assert forall|k: int| 0 <= k < s.len() implies s[k] != c by {
                if k < s.len() - 1 {
                    assert(s.drop_last()[k] == s[k]);
                    assert(!s.drop_last().contains(c));
                }
            }
        } else {
            assert(s.drop_last()[s.drop_last().len() - a.len() - 1] == s[s.len() - a.push(s.last()).len() - 1]);
            assert(a.push(s.last()) =~= s.skip(s.len() - a.push(s.last()).len()));
        }
    } else if s.len() > 0 {
        assert(s[s.len() - 0 - 1] == c);
        assert(s.skip(s.len() as int) =~= Seq::<char>::empty());
    }
}

/// The last component of a `/`-separated path (`Path::file_name`): trailing
/// slashes and `.` components are passed over; none for an empty path, the
/// root, `.` or `..`.
pub open spec fn path_file_name(p: Seq<char>) -> Option<Seq<char>>
    decreases p.len(),
{
    let t = without_trailing_slashes(p);
    if t.len() == 0 {
        None
    } else {
        let name = after_last(t, '/');
        if name == "."@ {
            if name.len() < t.len() {
                proof {
                    lemma_without_trailing_slashes_len(p);
                }
                path_file_name(t.drop_last())
            } else {
                None
            }
        } else if name == ".."@ {
            None
        } else {
            Some(name)
        }
    }
}

/// A file name split at its last `.` into stem and extension (`Path`'s
/// `file_stem` and `extension`); a name without a `.`, or whose only `.`
/// leads, has no extension.
pub open spec fn split_file_name(name: Seq<char>) -> (Seq<char>, Option<Seq<char>>) {
    let after = after_last(name, '.');
    if after.len() >= name.len() {
        (name, None)
    } else {
        let before = name.take(name.len() - after.len() - 1);
        if before.len() == 0 {
            (name, None)
        } else {
            (before, Some(after))
        }
    }
}

/// The subtitle format named by an extension (ASCII case folded): `srt`,
/// `ass`, `ssa` or `vtt`.
pub open spec fn subtitle_extension(ext: Option<Seq<char>>) -> Option<Seq<char>> {
    match ext {
        Some(e) => if lower_seq(e) == "srt"@ || lower_seq(e) == "ass"@ || lower_seq(e) == "ssa"@
            || lower_seq(e) == "vtt"@ {
            Some(lower_seq(e))
        } else {
            None
        },
        None => None,
    }
}

/// Sidecar name parts that carry no language.
pub open spec fn is_ignored_token(t: Seq<char>) -> bool {
    t == "default"@ || t == "forced"@ || t == "sdh"@ || t == "cc"@ || t == "signs"@ || t
        == "dialogue"@ || t == "dubtitle"@ || t == "sub"@ || t == "subs"@ || t == "subtitle"@ || t
        == "subtitles"@
}

/// Whether a token names a language: a known alias, or a base tag of two or
/// three ASCII letters.
pub open spec fn is_language_token(token: Seq<char>) -> bool {
    let n = language_tag(token);
    &&& n.len() > 0
    &&& (alias_group(n) is Some || ((forall|k: int|
        0 <= k < tag_base(n).len() ==> ('a' <= #[trigger] tag_base(n)[k] <= 'z' || 'A' <= tag_base(
            n,
        )[k] <= 'Z')) && 2 <= tag_base(n).len() <= 3))
}

/// The first language named among the `.`-separated tokens from `k` on.
pub open spec fn language_among(tokens: Seq<Seq<char>>, k: int) -> Option<Seq<char>>
    decreases tokens.len() - k,
{
    if k < 0 || k >= tokens.len() {
        None
    } else {
        let n = language_tag(tokens[k]);
        if n.len() > 0 && !is_ignored_token(n) && is_language_token(n) {
            Some(n)
        } else {
            language_among(tokens, k + 1)
        }
    }
}

/// The language a sidecar's stem names after the media stem and a `.`.
pub open spec fn sidecar_language(video_stem: Seq<char>, stem: Seq<char>) -> Option<Seq<char>> {
    if stem == video_stem || !has_prefix(stem, video_stem + "."@) {
        None
    } else {
        language_among(split_seq(stem.skip(video_stem.len() + 1 as int), '.'), 0)
    }
}

/// Whether a sidecar path is a candidate for the media stem: a supported
/// subtitle extension and a stem equal to the media stem or continuing it
/// with a `.`.
pub open spec fn is_sidecar_for(video_stem: Seq<char>, path: Seq<char>) -> bool {
    &&& path_file_name(path) is Some
    &&& subtitle_extension(split_file_name(path_file_name(path)->0).1) is Some
    &&& (split_file_name(path_file_name(path)->0).0 == video_stem || has_prefix(
        split_file_name(path_file_name(path)->0).0,
        video_stem + "."@,
    ))
}

/// The candidate for a sidecar file of the media stem.
pub open spec fn sidecar_candidate_is(c: SubtitleCandidate, video_stem: Seq<char>, path: Seq<char>) -> bool {
    let name = path_file_name(path)->0;
    let (stem, ext) = split_file_name(name);
    let format = subtitle_extension(ext)->0;
    &&& c.id@ == "sidecar:"@ + name
    &&& c.source == SubtitleCandidateSource::Sidecar
    &&& c.stream_index is None
    &&& opt_view(c.language) == sidecar_language(video_stem, stem)
    &&& c.label@ == name + " ("@ + upper_seq(format) + " Sidecar)"@
    &&& opt_view(c.codec) == Some(format)
    &&& !c.is_default
    &&& c.is_external
    &&& !c.is_selected_in_session
    &&& c.match_confidence is None
    &&& opt_view(c.local_path) == Some(path)
    &&& c.is_exact_file_match == (stem == video_stem)
}

pub(crate) fn path_file_name_exec(p: &[char]) -> (r: Option<Vec<char>>)
    ensures
        match r {
            Some(v) => path_file_name(p@) == Some(v@),
            None => path_file_name(p@) is None,
        },
    decreases p@.len(),
{
    let mut j = p.len();
    assert(p@.take(j as int) =~= p@);
    while j > 0 && p[j - 1] == '/'
        invariant
            j <= p@.len(),
            without_trailing_slashes(p@) == without_trailing_slashes(p@.take(j as int)),
        decreases j,
    {
        assert(p@.take(j as int).drop_last() =~= p@.take(j - 1));
        j -= 1;
    }
    let t = slice_vec(p, 0, j);
    assert(t@ =~= p@.take(j as int));
    assert(t@ == without_trailing_slashes(p@)) by {
        if j > 0 {
            assert(t@.last() != '/');
        }
    }
    if t.len() == 0 {
        return None;
    }
    let name = after_last_exec(&t, '/');
    proof {
        lemma_without_trailing_slashes_len(p@);
        lemma_after_last_len(t@, '/');
    }
    if chars_are(&name, ".") {
        if name.len() < t.len() {
            let shorter = slice_vec(&t, 0, t.len() - 1);
            assert(shorter@ =~= t@.drop_last());
            return path_file_name_exec(&shorter);
        }
        return None;
    }
    if chars_are(&name, "..") {
        return None;
    }
    Some(name)
}

pub(crate) fn split_file_name_exec(name: &[char]) -> (r: (Vec<char>, Option<Vec<char>>))
    ensures
        r.0@ == split_file_name(name@).0,
        match r.1 {
            Some(e) => split_file_name(name@).1 == Some(e@),
            None => split_file_name(name@).1 is None,
        },
{
    let after = after_last_exec(name, '.');
    proof {
        lemma_after_last_len(name@, '.');
    }
    if after.len() >= name.len() {
        return (slice_vec(name, 0, name.len()), None);
    }
    let before = slice_vec(name, 0, name.len() - after.len() - 1);
    assert(before@ =~= name@.take(name@.len() - after@.len() - 1));
    if before.len() == 0 {
        let whole = slice_vec(name, 0, name.len());
        assert(whole@ =~= name@);
        (whole, None)
    } else {
        (before, Some(after))
    }
}

fn subtitle_extension_exec(ext: &[char]) -> (r: Option<Vec<char>>)
    ensures
        match r {
            Some(v) => subtitle_extension(Some(ext@)) == Some(v@),
            None => subtitle_extension(Some(ext@)) is None,
        },
{
    let l = lower_chars(ext);
    if chars_are(&l, "srt") || chars_are(&l, "ass") || chars_are(&l, "ssa") || chars_are(&l, "vtt") {
        Some(l)
    } else {
        None
    }
}

fn is_ignored_token_exec(t: &[char]) -> (r: bool)
    ensures
        r == is_ignored_token(t@),
{
    chars_are(t, "default") || chars_are(t, "forced") || chars_are(t, "sdh") || chars_are(t, "cc")
        || chars_are(t, "signs") || chars_are(t, "dialogue") || chars_are(t, "dubtitle") || chars_are(
        t,
        "sub",
    ) || chars_are(t, "subs") || chars_are(t, "subtitle") || chars_are(t, "subtitles")
}

fn is_language_token_exec(token: &str) -> (r: bool)
    ensures
        r == is_language_token(token@),
{
    let n = normalize_language_tag(token);
    if n.len() == 0 {
        return false;
    }
    if language_alias_group(&n).is_some() {
        return true;
    }
    let base = tag_base_exec(&n);
    let mut k: usize = 0;
    while k < base.len()
        invariant
            k <= base@.len(),
            n@ == language_tag(token@),
            n@.len() > 0,
            alias_group(n@) is None,
            base@ == tag_base(n@),
            forall|t: int| 0 <= t < k ==> ('a' <= #[trigger] base@[t] <= 'z' || 'A' <= base@[t] <= 'Z'),
        decreases base.len() - k,
    {
        let c = base[k];
        if !(('a' <= c && c <= 'z') || ('A' <= c && c <= 'Z')) {
            assert(!('a' <= base@[k as int] <= 'z' || 'A' <= base@[k as int] <= 'Z'));
            return false;
        }
        k += 1;
    }
    2 <= base.len() && base.len() <= 3
}

/// The language a sidecar's stem names after the media stem and a `.`.
fn sidecar_language_hint(video_stem: &str, stem: &[char]) -> (r: Option<Vec<char>>)
    ensures
        match r {
            Some(v) => sidecar_language(video_stem@, stem@) == Some(v@),
            None => sidecar_language(video_stem@, stem@) is None,
        },
{
    let vs = chars_of(video_stem);
    if seq_equal(stem, &vs) {
        return None;
    }
    let mut prefix = slice_vec(&vs, 0, vs.len());
    prefix.push('.');
    assert(prefix@ =~= video_stem@ + "."@) by {
        reveal_strlit(".");
    }
    if !starts_with_chars(stem, &prefix) {
        return None;
    }
    let suffix = slice_vec(stem, prefix.len(), stem.len());
    assert(suffix@ =~= stem@.skip(video_stem@.len() + 1 as int));
    let tokens = split_chars(&suffix, '.');
    let ghost ts = tokens@.map_values(|v: Vec<char>| v@);
    assert(sidecar_language(video_stem@, stem@) == language_among(ts, 0));
    let mut k: usize = 0;
    while k < tokens.len()
        invariant
            k <= tokens@.len(),
            ts == tokens@.map_values(|v: Vec<char>| v@),
            sidecar_language(video_stem@, stem@) == language_among(ts, 0),
            language_among(ts, 0) == language_among(ts, k as int),
        decreases tokens.len() - k,
    {
        assert(ts[k as int] == tokens@[k as int]@);
        let text = string_of(&tokens[k]);
        let n = normalize_language_tag(text.as_str());
        if n.len() > 0 && !is_ignored_token_exec(&n) {
            let ntext = string_of(&n);
            if is_language_token_exec(ntext.as_str()) {
                return Some(n);
            }
        }
        k += 1;
    }
    None
}

/// The candidate for a sidecar subtitle file of the media whose file stem is
/// `video_stem`, or none when the file is not one (see [`is_sidecar_for`]).
pub fn sidecar_subtitle_candidate(video_stem: &str, subtitle_path: &str) -> (r: Option<SubtitleCandidate>)
    ensures
        match r {
            Some(c) => is_sidecar_for(video_stem@, subtitle_path@) && sidecar_candidate_is(
                c,
                video_stem@,
                subtitle_path@,
            ),
            None => !is_sidecar_for(video_stem@, subtitle_path@),
        },
{
    let path = chars_of(subtitle_path);
    let name = match path_file_name_exec(&path) {
        Some(n) => n,
        None => {
            return None;
        },
    };
    let (stem, ext) = split_file_name_exec(&name);
    let format = match ext {
        Some(e) => match subtitle_extension_exec(&e) {
            Some(f) => f,
            None => {
                return None;
            },
        },
        None => {
            return None;
        },
    };
    let vs = chars_of(video_stem);
    let mut prefix = slice_vec(&vs, 0, vs.len());
    prefix.push('.');
    assert(prefix@ =~= video_stem@ + "."@) by {
        reveal_strlit(".");
    }
    let is_exact = seq_equal(&stem, &vs);
    if !is_exact && !starts_with_chars(&stem, &prefix) {
        return None;
    }
    let language = match sidecar_language_hint(video_stem, &stem) {
        Some(l) => Some(string_of(&l)),
        None => None,
    };
    let mut id: Vec<char> = Vec::new();
    append_str(&mut id, "sidecar:");
    append(&mut id, &name);
    let mut label: Vec<char> = Vec::new();
    append(&mut label, &name);
    append_str(&mut label, " (");
    append(&mut label, &upper_chars(&format));
    append_str(&mut label, " Sidecar)");
    Some(SubtitleCandidate {
        id: string_of(&id),
        source: SubtitleCandidateSource::Sidecar,
        stream_index: None,
        language,
        label: string_of(&label),
        codec: Some(string_of(&format)),
        is_default: false,
        is_external: true,
        is_selected_in_session: false,
        match_confidence: None,
        local_path: Some(owned(subtitle_path)),
        is_exact_file_match: is_exact,
    })
}

// ---------------------------------------------------------------------------
// Playback sessions across servers
// ---------------------------------------------------------------------------

/// How long a session row shared by several browser tabs keeps each tab's
/// item after it was last reported.
pub const SHARED_SESSION_RETENTION_MS: u64 = 30 * 1000;

/// A session reported by one media server. `server_id` identifies the
/// server client it came from.
pub struct ServerSession {
    pub kind: MediaServerKind,
    pub server_id: u64,
    pub session: Session,
    /// Whether the latest poll reported it.
    pub reported: bool,
    /// Whether the latest poll reported it for the first time.
    pub newly_observed: bool,
}

/// The item ID of a session's playing item, empty when nothing plays.
pub open spec fn playing_item_id(s: Session) -> Seq<char> {
    match s.now_playing {
        Some(np) => np.item_id@,
        None => Seq::empty(),
    }
}

/// The key of a server session: kind, session ID, item ID and, where the
/// server names one, the playback instance (see [`scoped_playback_id`]).
pub open spec fn server_session_key(s: ServerSession) -> Seq<char> {
    s.kind.id_text() + "|"@ + s.session.id@ + "|"@ + playing_item_id(s.session) + (match s.session.playback_session_id {
        Some(p) => "|"@ + p@,
        None => Seq::empty(),
    })
}

/// Whether two server sessions are the same connection: same server client,
/// session ID, playback instance and user.
pub open spec fn same_connection_spec(a: ServerSession, b: ServerSession) -> bool {
    &&& a.kind == b.kind
    &&& a.server_id == b.server_id
    &&& a.session.id@ == b.session.id@
    &&& opt_view(a.session.playback_session_id) == opt_view(b.session.playback_session_id)
    &&& opt_view(a.session.user_id) == opt_view(b.session.user_id)
}

impl ServerSession {
    /// The key of the session (see [`server_session_key`]).
    pub fn id(&self) -> (r: String)
        ensures
            r@ == server_session_key(*self),
    {
        let item_id: &str = match &self.session.now_playing {
            Some(np) => np.item_id.as_str(),
            None => "",
        };
        let playback: Option<&str> = match &self.session.playback_session_id {
            Some(p) => Some(p.as_str()),
            None => None,
        };
        proof {
            reveal_strlit("");
        }
        scoped_playback_id(self.kind, self.session.id.as_str(), item_id, playback)
    }

    /// Whether both are the same connection (see [`same_connection_spec`]).
    pub fn same_connection(&self, other: &Self) -> (r: bool)
        ensures
            r == same_connection_spec(*self, *other),
    {
        self.kind == other.kind && self.server_id == other.server_id && str_equal(
            self.session.id.as_str(),
            other.session.id.as_str(),
        ) && opt_equal(&self.session.playback_session_id, &other.session.playback_session_id)
            && opt_equal(&self.session.user_id, &other.session.user_id)
    }
}

/// Whether a previously observed session is kept after a poll: it was seen
/// less than the retention time ago and a reported playing session is the
/// same connection, with the same key unless the server is not
/// AudioBookShelf (whose rows are not shared).
pub open spec fn keeps_observed(previous: ServerSession, last_seen_ms: u64, reported: Seq<ServerSession>, now_ms: u64) -> bool {
    &&& (if now_ms >= last_seen_ms {
        now_ms - last_seen_ms
    } else {
        0
    }) < SHARED_SESSION_RETENTION_MS
    &&& exists|k: int|
        0 <= k < reported.len() && (#[trigger] reported[k]).session.now_playing is Some
            && same_connection_spec(reported[k], previous) && (server_session_key(reported[k])
            == server_session_key(previous) || previous.kind != MediaServerKind::Audiobookshelf)
}

/// Whether a previously observed session is kept after a poll (see
/// [`keeps_observed`]).
pub fn keeps_observed_session(
    previous: &ServerSession,
    last_seen_ms: u64,
    reported: &[ServerSession],
    now_ms: u64,
) -> (r: bool)
    ensures
        r == keeps_observed(*previous, last_seen_ms, reported@, now_ms),
{
    let elapsed = if now_ms >= last_seen_ms {
        now_ms - last_seen_ms
    } else {
        0
    };
    if elapsed >= SHARED_SESSION_RETENTION_MS {
        return false;
    }
    let previous_id = previous.id();
    let mut k: usize = 0;
    while k < reported.len()
        invariant
            k <= reported@.len(),
            previous_id@ == server_session_key(*previous),
            (if now_ms >= last_seen_ms {
                now_ms - last_seen_ms
            } else {
                0
            }) < SHARED_SESSION_RETENTION_MS,
            forall|j: int|
                0 <= j < k ==> !((#[trigger] reported@[j]).session.now_playing is Some
                    && same_connection_spec(reported@[j], *previous) && (server_session_key(
                    reported@[j],
                ) == server_session_key(*previous) || previous.kind
                    != MediaServerKind::Audiobookshelf)),
        decreases reported.len() - k,
    {
        let current = &reported[k];
        if current.session.now_playing.is_some() && current.same_connection(previous) {
            let current_id = current.id();
            if str_equal(current_id.as_str(), previous_id.as_str()) || previous.kind
                != MediaServerKind::Audiobookshelf {
                assert(reported@[k as int].session.now_playing is Some && same_connection_spec(
                    reported@[k as int],
                    *previous,
                ) && (server_session_key(reported@[k as int]) == server_session_key(*previous)
                    || previous.kind != MediaServerKind::Audiobookshelf));
                return true;
            }
        }
        k += 1;
    }
    false
}

/// Whether remote control stays available for the `k`-th session: no other
/// listed session shares its server kind and provider session ID (a shared
/// row cannot address one browser tab).
pub open spec fn connection_unshared(sessions: Seq<ServerSession>, k: int) -> bool {
    forall|j: int|
        0 <= j < sessions.len() && j != k ==> !((#[trigger] sessions[j]).kind == sessions[k].kind
            && sessions[j].session.id@ == sessions[k].session.id@)
}

/// Whether the `k`-th session keeps remote control (see
/// [`connection_unshared`]).
pub fn remote_control_allowed(sessions: &[ServerSession], k: usize) -> (r: bool)
    requires
        k < sessions@.len(),
    ensures
        r == connection_unshared(sessions@, k as int),
{
    let mut j: usize = 0;
    while j < sessions.len()
        invariant
            k < sessions@.len(),
            j <= sessions@.len(),
            forall|t: int|
                0 <= t < j && t != k ==> !((#[trigger] sessions@[t]).kind == sessions@[k as int].kind
                    && sessions@[t].session.id@ == sessions@[k as int].session.id@),
        decreases sessions.len() - j,
    {
        if j != k && sessions[j].kind == sessions[k].kind && str_equal(
            sessions[j].session.id.as_str(),
            sessions[k].session.id.as_str(),
        ) {
            return false;
        }
        j += 1;
    }
    true
}

/// The position of the first session whose key is `key`.
pub open spec fn first_with_key(ss: Seq<ServerSession>, key: Seq<char>, k: int) -> Option<int>
    decreases ss.len() - k,
{
    if k < 0 || k >= ss.len() {
        None
    } else if server_session_key(ss[k]) == key {
        Some(k)
    } else {
        first_with_key(ss, key, k + 1)
    }
}

/// The position of the first reported session that is playing an item.
pub open spec fn first_reported_playing(ss: Seq<ServerSession>, k: int) -> Option<int>
    decreases ss.len() - k,
{
    if k < 0 || k >= ss.len() {
        None
    } else if ss[k].reported && ss[k].session.now_playing is Some {
        Some(k)
    } else {
        first_reported_playing(ss, k + 1)
    }
}

/// Whether a reported session is actively playing (not paused).
pub open spec fn actively_playing(s: ServerSession) -> bool {
    s.reported && s.session.now_playing is Some && !s.session.play_state.is_paused
}

/// Whether the previously active session may stay active: it is playing or
/// nothing else plays, and either the poll reported it or no newly started
/// playback on the same connection replaced it.
pub open spec fn stays_active(ss: Seq<ServerSession>, previous: ServerSession) -> bool {
    &&& (!previous.session.play_state.is_paused || !exists|k: int|
        0 <= k < ss.len() && actively_playing(#[trigger] ss[k]))
    &&& (previous.reported || !exists|k: int|
        0 <= k < ss.len() && actively_playing(#[trigger] ss[k]) && ss[k].newly_observed
            && same_connection_spec(ss[k], previous))
}

/// The session to follow, among sessions ordered by automatic priority: the
/// user's selection when one is made (if it is listed); else the previously
/// active session while it may stay active; else the first reported session
/// playing an item.
pub open spec fn active_choice(ss: Seq<ServerSession>, user_selected: Option<Seq<char>>, previous_active: Option<Seq<char>>) -> Option<int> {
    match user_selected {
        Some(sel) => first_with_key(ss, sel, 0),
        None => {
            let sticky = match previous_active {
                Some(p) => match first_with_key(ss, p, 0) {
                    Some(k) => if stays_active(ss, ss[k]) {
                        Some(k)
                    } else {
                        None
                    },
                    None => None,
                },
                None => None,
            };
            match sticky {
                Some(k) => Some(k),
                None => first_reported_playing(ss, 0),
            }
        },
    }
}

fn find_key(ss: &[ServerSession], key: &str) -> (r: Option<usize>)
    ensures
        match r {
            Some(k) => first_with_key(ss@, key@, 0) == Some(k as int) && k < ss@.len(),
            None => first_with_key(ss@, key@, 0) is None,
        },
{
    let mut k: usize = 0;
    while k < ss.len()
        invariant
            k <= ss@.len(),
            first_with_key(ss@, key@, 0) == first_with_key(ss@, key@, k as int),
        decreases ss.len() - k,
    {
        let id = ss[k].id();
        if str_equal(id.as_str(), key) {
            return Some(k);
        }
        k += 1;
    }
    None
}

fn any_actively_playing(ss: &[ServerSession]) -> (r: bool)
    ensures
        r == exists|k: int| 0 <= k < ss@.len() && actively_playing(#[trigger] ss@[k]),
{
    let mut k: usize = 0;
    while k < ss.len()
        invariant
            k <= ss@.len(),
            forall|j: int| 0 <= j < k ==> !actively_playing(#[trigger] ss@[j]),
        decreases ss.len() - k,
    {
        let s = &ss[k];
        if s.reported && s.session.now_playing.is_some() && !s.session.play_state.is_paused {
            assert(actively_playing(ss@[k as int]));
            return true;
        }
        k += 1;
    }
    false
}

fn replaced_by_new_playback(ss: &[ServerSession], previous: &ServerSession) -> (r: bool)
    ensures
        r == exists|k: int|
            0 <= k < ss@.len() && actively_playing(#[trigger] ss@[k]) && ss@[k].newly_observed
                && same_connection_spec(ss@[k], *previous),
{
    let mut k: usize = 0;
    while k < ss.len()
        invariant
            k <= ss@.len(),
            forall|j: int|
                0 <= j < k ==> !(actively_playing(#[trigger] ss@[j]) && ss@[j].newly_observed
                    && same_connection_spec(ss@[j], *previous)),
        decreases ss.len() - k,
    {
        let s = &ss[k];
        if s.reported && s.session.now_playing.is_some() && !s.session.play_state.is_paused
            && s.newly_observed && s.same_connection(previous) {
            assert(actively_playing(ss@[k as int]));
            return true;
        }
        k += 1;
    }
    false
}

/// Chooses the session to follow (see [`active_choice`]); `sessions` are in
/// automatic priority order.
pub fn choose_active_session(
    sessions: &[ServerSession],
    user_selected: Option<&str>,
    previous_active_id: Option<&str>,
) -> (r: Option<usize>)
    ensures
        ({
            let choice = active_choice(
                sessions@,
                match user_selected {
                    Some(s) => Some(s@),
                    None => None,
                },
                match previous_active_id {
                    Some(s) => Some(s@),
                    None => None,
                },
            );
            match r {
                Some(k) => choice == Some(k as int) && k < sessions@.len(),
                None => choice is None,
            }
        }),
{
    let ghost choice = active_choice(
        sessions@,
        match user_selected {
            Some(s) => Some(s@),
            None => None,
        },
        match previous_active_id {
            Some(s) => Some(s@),
            None => None,
        },
    );
    if let Some(sel) = user_selected {
        return find_key(sessions, sel);
    }
    if let Some(pid) = previous_active_id {
        if let Some(k) = find_key(sessions, pid) {
            let previous = &sessions[k];
            let has_playing = any_actively_playing(sessions);
            let replaced = replaced_by_new_playback(sessions, previous);
            if (!previous.session.play_state.is_paused || !has_playing) && (previous.reported
                || !replaced) {
                assert(stays_active(sessions@, sessions@[k as int]));
                return Some(k);
            }
        }
    }
    assert(choice == first_reported_playing(sessions@, 0));
    let mut k: usize = 0;
    while k < sessions.len()
        invariant
            k <= sessions@.len(),
            choice == first_reported_playing(sessions@, 0),
            choice == active_choice(
                sessions@,
                match user_selected {
                    Some(s) => Some(s@),
                    None => None,
                },
                match previous_active_id {
                    Some(s) => Some(s@),
                    None => None,
                },
            ),
            first_reported_playing(sessions@, 0) == first_reported_playing(sessions@, k as int),
        decreases sessions.len() - k,
    {
        if sessions[k].reported && sessions[k].session.now_playing.is_some() {
            return Some(k);
        }
        k += 1;
    }
    None
}

// ---------------------------------------------------------------------------
// Server subtitle tracks
// ---------------------------------------------------------------------------

/// Whether a stream is a text subtitle track that can be loaded: flagged as
/// text, or with one of the codecs `srt`, `subrip`, `ass`, `ssa`, `vtt`,
/// `webvtt`.
pub open spec fn loadable_text_subtitle(s: MediaStream) -> bool {
    &&& s.stream_type == StreamType::Subtitle
    &&& (s.is_text_subtitle_stream || (s.codec matches Some(c) && (c@ == "srt"@ || c@ == "subrip"@
        || c@ == "ass"@ || c@ == "ssa"@ || c@ == "vtt"@ || c@ == "webvtt"@)))
}

pub fn is_loadable_text_subtitle(stream: &MediaStream) -> (r: bool)
    ensures
        r == loadable_text_subtitle(*stream),
{
    if stream.stream_type != StreamType::Subtitle {
        return false;
    }
    if stream.is_text_subtitle_stream {
        return true;
    }
    match &stream.codec {
        Some(c) => {
            let s = c.as_str();
            str_equal(s, "srt") || str_equal(s, "subrip") || str_equal(s, "ass") || str_equal(s, "ssa")
                || str_equal(s, "vtt") || str_equal(s, "webvtt")
        },
        None => false,
    }
}

/// The label of a server subtitle track: its display title, title or
/// language (else `Subtitle {index}`), then in brackets the upper-case
/// codec, `External` or `Internal`, and `Default` for the default track,
/// separated by ` · `.
pub open spec fn candidate_label(s: MediaStream) -> Seq<char> {
    let base = match s.display_title {
        Some(d) => d@,
        None => match s.title {
            Some(t) => t@,
            None => match s.language {
                Some(l) => l@,
                None => "Subtitle "@ + decimal_digits(s.index as nat),
            },
        },
    };
    let codec: Seq<Seq<char>> = match s.codec {
        Some(c) => seq![unicode_upper(c@)],
        None => Seq::empty(),
    };
    let place: Seq<Seq<char>> = seq![if s.is_external { "External"@ } else { "Internal"@ }];
    let default: Seq<Seq<char>> = if s.is_default { seq!["Default"@] } else { Seq::empty() };
    base + " ("@ + join_seq(codec + place + default, " · "@) + ")"@
}

pub fn subtitle_candidate_label(stream: &MediaStream) -> (r: String)
    ensures
        r@ == candidate_label(*stream),
{
    let mut t: Vec<char> = Vec::new();
    match &stream.display_title {
        Some(d) => append_str(&mut t, d.as_str()),
        None => match &stream.title {
            Some(x) => append_str(&mut t, x.as_str()),
            None => match &stream.language {
                Some(l) => append_str(&mut t, l.as_str()),
                None => {
                    append_str(&mut t, "Subtitle ");
                    append(&mut t, &digits_of(stream.index as u64));
                },
            },
        },
    }
    let mut details: Vec<Vec<char>> = Vec::new();
    match &stream.codec {
        Some(c) => {
            let up = to_uppercase_text(c.as_str());
            details.push(chars_of(up.as_str()));
        },
        None => {},
    }
    if stream.is_external {
        details.push(chars_of("External"));
    } else {
        details.push(chars_of("Internal"));
    }
    if stream.is_default {
        details.push(chars_of("Default"));
    }
    proof {
        let codec: Seq<Seq<char>> = if stream.codec is Some {
            seq![unicode_upper(stream.codec->0@)]
        } else {
            Seq::empty()
        };
        let place: Seq<Seq<char>> = seq![if stream.is_external { "External"@ } else { "Internal"@ }];
        let default: Seq<Seq<char>> = if stream.is_default { seq!["Default"@] } else { Seq::empty() };
        assert(details@.map_values(|v: Vec<char>| v@) =~= codec + place + default);
    }
    append_str(&mut t, " (");
    append(&mut t, &join_chars(&details, &chars_of(" · ")));
    append_str(&mut t, ")");
    string_of(&t)
}

/// The candidate for a server subtitle track.
pub open spec fn server_candidate_is(c: SubtitleCandidate, s: MediaStream, selected: bool) -> bool {
    &&& c.id@ == "server:"@ + decimal_digits(s.index as nat)
    &&& c.source == SubtitleCandidateSource::Server
    &&& c.stream_index == Some(s.index)
    &&& opt_view(c.language) == opt_view(s.language)
    &&& c.label@ == candidate_label(s)
    &&& opt_view(c.codec) == opt_view(s.codec)
    &&& c.is_default == s.is_default
    &&& c.is_external == s.is_external
    &&& c.is_selected_in_session == selected
    &&& c.match_confidence is None
    &&& c.local_path is None
    &&& !c.is_exact_file_match
}

pub fn subtitle_candidate_from_stream(stream: &MediaStream, is_selected_in_session: bool) -> (r: SubtitleCandidate)
    ensures
        server_candidate_is(r, *stream, is_selected_in_session),
{
    let mut id: Vec<char> = Vec::new();
    append_str(&mut id, "server:");
    append(&mut id, &digits_of(stream.index as u64));
    SubtitleCandidate {
        id: string_of(&id),
        source: SubtitleCandidateSource::Server,
        stream_index: Some(stream.index),
        language: clone_opt(&stream.language),
        label: subtitle_candidate_label(stream),
        codec: clone_opt(&stream.codec),
        is_default: stream.is_default,
        is_external: stream.is_external,
        is_selected_in_session,
        match_confidence: None,
        local_path: None,
        is_exact_file_match: false,
    }
}

/// The position of the subtitle stream with the given index, from `k` on.
pub open spec fn subtitle_stream_position(ms: Seq<MediaStream>, index: u32, k: int) -> Option<int>
    decreases ms.len() - k,
{
    if k < 0 || k >= ms.len() {
        None
    } else if ms[k].stream_type == StreamType::Subtitle && ms[k].index == index {
        Some(k)
    } else {
        subtitle_stream_position(ms, index, k + 1)
    }
}

/// The subtitle stream the player has selected, when it reports one.
pub open spec fn selected_stream(s: Session) -> Option<MediaStream> {
    match (s.play_state.subtitle_stream_index, s.now_playing) {
        (Some(i), Some(np)) => match subtitle_stream_position(np.media_streams@, i as u32, 0) {
            Some(k) => Some(np.media_streams@[k]),
            None => None,
        },
        _ => None,
    }
}

pub fn selected_session_subtitle_stream(session: &Session) -> (r: Option<&MediaStream>)
    ensures
        match r {
            Some(m) => selected_stream(*session) == Some(*m),
            None => selected_stream(*session) is None,
        },
{
    let selected_index = match session.play_state.subtitle_stream_index {
        Some(i) => i as u32,
        None => {
            return None;
        },
    };
    let np = match &session.now_playing {
        Some(np) => np,
        None => {
            return None;
        },
    };
    let mut k: usize = 0;
    while k < np.media_streams.len()
        invariant
            k <= np.media_streams@.len(),
            session.now_playing == Some(*np),
            session.play_state.subtitle_stream_index matches Some(i) && selected_index == i as u32,
            subtitle_stream_position(np.media_streams@, selected_index, 0) == subtitle_stream_position(
                np.media_streams@,
                selected_index,
                k as int,
            ),
        decreases np.media_streams.len() - k,
    {
        let m = &np.media_streams[k];
        if m.stream_type == StreamType::Subtitle && m.index == selected_index {
            return Some(m);
        }
        k += 1;
    }
    None
}

/// Whether a stream describes the same subtitle track as the player's
/// selected one (same codec, language, titles and placement).
pub open spec fn matches_selected(s: MediaStream, selected: Option<MediaStream>) -> bool {
    selected matches Some(x) && s.stream_type == StreamType::Subtitle && opt_view(s.codec) == opt_view(
        x.codec,
    ) && opt_view(s.language) == opt_view(x.language) && opt_view(s.display_title) == opt_view(
        x.display_title,
    ) && opt_view(s.title) == opt_view(x.title) && s.is_external == x.is_external
}

pub fn stream_matches_selected_session_stream(stream: &MediaStream, selected: Option<&MediaStream>) -> (r: bool)
    ensures
        r == matches_selected(
            *stream,
            match selected {
                Some(x) => Some(*x),
                None => None,
            },
        ),
{
    match selected {
        None => false,
        Some(x) => stream.stream_type == StreamType::Subtitle && opt_equal(&stream.codec, &x.codec)
            && opt_equal(&stream.language, &x.language) && opt_equal(&stream.display_title, &x.display_title)
            && opt_equal(&stream.title, &x.title) && stream.is_external == x.is_external,
    }
}

/// The position of the first media source with the given ID, from `k` on.
pub open spec fn source_position(ss: Seq<MediaSource>, id: Seq<char>, k: int) -> Option<int>
    decreases ss.len() - k,
{
    if k < 0 || k >= ss.len() {
        None
    } else if ss[k].id@ == id {
        Some(k)
    } else {
        source_position(ss, id, k + 1)
    }
}

/// The streams of the media source with the given ID, else of the first
/// media source, else of the item.
pub open spec fn source_streams(item: ItemInfo, media_source_id: Seq<char>) -> Seq<MediaStream> {
    let ss = item.media_sources@;
    match source_position(ss, media_source_id, 0) {
        Some(k) => ss[k].media_streams@,
        None => if ss.len() > 0 {
            ss[0].media_streams@
        } else {
            item.media_streams@
        },
    }
}

pub fn subtitle_streams_for_media_source<'a>(item_info: &'a ItemInfo, media_source_id: &str) -> (r: &'a [MediaStream])
    ensures
        r@ == source_streams(*item_info, media_source_id@),
{
    let ss = &item_info.media_sources;
    let mut k: usize = 0;
    while k < ss.len()
        invariant
            k <= ss@.len(),
            ss@ == item_info.media_sources@,
            source_position(ss@, media_source_id@, 0) == source_position(ss@, media_source_id@, k as int),
        decreases ss.len() - k,
    {
        if str_equal(ss[k].id.as_str(), media_source_id) {
            return ss[k].media_streams.as_slice();
        }
        k += 1;
    }
    if ss.len() > 0 {
        ss[0].media_streams.as_slice()
    } else {
        item_info.media_streams.as_slice()
    }
}

/// The server subtitle candidates of a stream list: each loadable text
/// subtitle track, marked selected when its index is the player's selected
/// index or it matches the player's selected track.
pub open spec fn server_candidates_match(cs: Seq<SubtitleCandidate>, streams: Seq<MediaStream>, session: Session) -> bool {
    let ls = streams.filter(|s: MediaStream| loadable_text_subtitle(s));
    &&& cs.len() == ls.len()
    &&& forall|k: int|
        0 <= k < cs.len() ==> server_candidate_is(
            #[trigger] cs[k],
            ls[k],
            session.play_state.subtitle_stream_index == Some(ls[k].index as i32) || matches_selected(
                ls[k],
                selected_stream(session),
            ),
        )
}

pub fn server_subtitle_candidates_from_streams(streams: &[MediaStream], session: &Session) -> (r: Vec<SubtitleCandidate>)
    ensures
        server_candidates_match(r@, streams@, *session),
{
    let selected = selected_session_subtitle_stream(session);
    let mut r: Vec<SubtitleCandidate> = Vec::new();
    let mut k: usize = 0;
    while k < streams.len()
        invariant
            k <= streams@.len(),
            match selected {
                Some(m) => selected_stream(*session) == Some(*m),
                None => selected_stream(*session) is None,
            },
            server_candidates_match(r@, streams@.take(k as int), *session),
        decreases streams.len() - k,
    {
        let s = &streams[k];
        let ghost before = streams@.take(k as int).filter(|s: MediaStream| loadable_text_subtitle(s));
        proof {
            let t = streams@.take(k + 1);
            assert(t.drop_last() =~= streams@.take(k as int));
            assert(t.last() == *s);
            reveal(Seq::filter);
        }
        if is_loadable_text_subtitle(s) {
            let is_selected = session.play_state.subtitle_stream_index == Some(s.index as i32)
                || stream_matches_selected_session_stream(s, selected);
            let c = subtitle_candidate_from_stream(s, is_selected);
            r.push(c);
            assert(streams@.take(k + 1).filter(|s: MediaStream| loadable_text_subtitle(s)) == before.push(*s));
        } else {
            assert(streams@.take(k + 1).filter(|s: MediaStream| loadable_text_subtitle(s)) == before);
        }
        k += 1;
    }
    assert(streams@.take(streams@.len() as int) =~= streams@);
    r
}

// ---------------------------------------------------------------------------
// Following the active item
// ---------------------------------------------------------------------------

/// What a poll decides for the active session's item.
pub struct ActiveItemUpdate {
    /// The published state of the item.
    pub now_playing: NowPlayingState,
    /// Whether the item differs from the previously followed one.
    pub item_changed: bool,
    /// Whether a previously followed item ended with this change.
    pub item_ended: bool,
    /// The subtitle candidate to load, if any.
    pub chosen_candidate: Option<SubtitleCandidate>,
    /// The user's subtitle choice to keep for the next poll.
    pub next_override_candidate_id: Option<String>,
    /// The audio tracks of the item.
    pub audio_tracks: Vec<AudioTrack>,
    pub audio_resolution: AudioTrackResolution,
}

/// The media source ID of an item, or `mediasource_{item_id}` when the
/// server gives none.
pub open spec fn media_source_of(np: NowPlaying) -> Seq<char> {
    match np.media_source_id {
        Some(m) => m@,
        None => "mediasource_"@ + np.item_id@,
    }
}

/// The text of an optional string slice.
pub open spec fn opt_text(o: Option<&str>) -> Option<Seq<char>> {
    match o {
        Some(s) => Some(s@),
        None => None,
    }
}

/// What a poll decides for the item `np` that session `s` of server kind
/// `kind` plays, given the previous poll's state and the item's subtitle
/// candidates.
pub open spec fn active_item_update_is(
    u: ActiveItemUpdate,
    kind: MediaServerKind,
    s: Session,
    np: NowPlaying,
    previous_history_id: Option<Seq<char>>,
    previous_override: Option<Seq<char>>,
    candidates: Seq<SubtitleCandidate>,
    target: Seq<char>,
    previous_loaded_candidate_id: Option<Seq<char>>,
    has_loaded_subtitle_track: bool,
    selected_audio_track: Option<u32>,
) -> bool {
    let history_id = kind.id_text() + "|"@ + np.item_id@;
    let item_changed = previous_history_id != Some(history_id);
    let override_id = if item_changed {
        None
    } else {
        previous_override
    };
    let (choice, mode) = subtitle_choice(candidates, target, override_id, kind);
    let chosen_id: Option<Seq<char>> = match choice {
        Some(k) => Some(candidates[k].id@),
        None => None,
    };
    let audio_override = if item_changed {
        None
    } else {
        selected_audio_track
    };
    let n = u.now_playing;
    &&& u.item_changed == item_changed
    &&& u.item_ended == (item_changed && previous_history_id is Some)
    &&& match choice {
        Some(k) => u.chosen_candidate matches Some(c) && same_candidate(c, candidates[k]),
        None => u.chosen_candidate is None,
    }
    &&& opt_view(u.next_override_candidate_id) == (if mode == SubtitleSelectionMode::Manual {
        chosen_id
    } else {
        None
    })
    &&& u.audio_tracks@.map_values(|t: AudioTrack| track_view(t)) == np.media_streams@.filter(
        |m: MediaStream| m.stream_type == StreamType::Audio,
    ).map_values(|m: MediaStream| track_of_stream(m))
    &&& (n.audio_stream_index, u.audio_resolution) == audio_choice(u.audio_tracks@, target, audio_override)
    &&& n.history_id@ == history_id
    &&& n.server_kind == kind
    &&& n.item_id@ == np.item_id@
    &&& n.title@ == display_title_text(np)
    &&& opt_view(n.series_name) == opt_view(np.series_name)
    &&& n.position_ms == (match s.play_state.position_ticks {
        Some(t) => div_toward_zero(t as int, 10_000) as i64,
        None => 0,
    })
    &&& n.duration_ms == (match np.run_time_ticks {
        Some(t) => Some(div_toward_zero(t as int, 10_000) as i64),
        None => None,
    })
    &&& n.is_paused == s.play_state.is_paused
    &&& n.supports_remote_control == s.supports_remote_control
    &&& n.subtitle_stream_index == (match choice {
        Some(k) => candidates[k].stream_index,
        None => None,
    })
    &&& opt_view(n.subtitle_candidate_id) == chosen_id
    &&& n.subtitle_selection_mode == mode
    &&& n.media_source_id@ == media_source_of(np)
    &&& opt_view(n.file_path) == opt_view(np.path)
    &&& n.subtitle_offset_ms == 0
    &&& n.subtitle_loading == (item_changed || chosen_id != previous_loaded_candidate_id || (chosen_id is Some
        && !has_loaded_subtitle_track))
}

fn opt_str_equal(a: &Option<String>, b: Option<&str>) -> (r: bool)
    ensures
        r == (opt_view(*a) == opt_text(b)),
{
    match (a, b) {
        (Some(x), Some(y)) => str_equal(x.as_str(), y),
        (None, None) => true,
        _ => false,
    }
}

/// Decides, for a poll, the state of the active session's item: its
/// published state, whether it changed, the subtitle candidate to load and
/// the audio track (see [`active_item_update_is`]); none when the session
/// plays nothing.
pub fn active_item_update(
    kind: MediaServerKind,
    session: &Session,
    previous_history_id: Option<&str>,
    previous_override: Option<&str>,
    candidates: &[SubtitleCandidate],
    target_lang: &str,
    previous_loaded_candidate_id: Option<&str>,
    has_loaded_subtitle_track: bool,
    selected_audio_track: Option<u32>,
) -> (r: Option<ActiveItemUpdate>)
    ensures
        match session.now_playing {
            None => r is None,
            Some(np) => r matches Some(u) && active_item_update_is(
                u,
                kind,
                *session,
                np,
                opt_text(previous_history_id),
                opt_text(previous_override),
                candidates@,
                target_lang@,
                opt_text(previous_loaded_candidate_id),
                has_loaded_subtitle_track,
                selected_audio_track,
            ),
        },
{
    let np = match &session.now_playing {
        Some(np) => np,
        None => {
            return None;
        },
    };
    let history_id = scoped_history_id(kind, np.item_id.as_str());
    let media_source_id = match &np.media_source_id {
        Some(m) => m.clone(),
        None => {
            let mut t: Vec<char> = Vec::new();
            append_str(&mut t, "mediasource_");
            append_str(&mut t, np.item_id.as_str());
            string_of(&t)
        },
    };
    let item_changed = match previous_history_id {
        Some(p) => !str_equal(p, history_id.as_str()),
        None => true,
    };
    let requested_override = if item_changed {
        None
    } else {
        previous_override
    };
    let (candidate, selection_mode) = resolve_subtitle_candidate(
        candidates,
        target_lang,
        requested_override,
        kind,
    );
    let selected_stream_index = match &candidate {
        Some(c) => c.stream_index,
        None => None,
    };
    let selected_candidate_id: Option<String> = match &candidate {
        Some(c) => Some(c.id.clone()),
        None => None,
    };
    let subtitle_loading = item_changed || !opt_str_equal(
        &selected_candidate_id,
        previous_loaded_candidate_id,
    ) || (selected_candidate_id.is_some() && !has_loaded_subtitle_track);
    let next_override_candidate_id = if selection_mode == SubtitleSelectionMode::Manual {
        clone_opt(&selected_candidate_id)
    } else {
        None
    };
    let audio_override = if item_changed {
        None
    } else {
        selected_audio_track
    };
    let audio_tracks = audio_tracks_from_streams(np.media_streams.as_slice());
    let (audio_index, audio_resolution) = resolve_audio_track(
        audio_tracks.as_slice(),
        target_lang,
        audio_override,
    );
    let position_ms = match session.position_ms() {
        Some(p) => p,
        None => 0,
    };
    let duration_ms = match np.run_time_ticks {
        Some(t) => Some(t / 10_000),
        None => None,
    };
    let now_playing = NowPlayingState {
        history_id,
        server_kind: kind,
        item_id: np.item_id.clone(),
        title: np.display_title(),
        series_name: clone_opt(&np.series_name),
        position_ms,
        duration_ms,
        is_paused: session.play_state.is_paused,
        supports_remote_control: session.supports_remote_control,
        subtitle_stream_index: selected_stream_index,
        subtitle_candidate_id: selected_candidate_id,
        subtitle_selection_mode: selection_mode,
        media_source_id,
        file_path: clone_opt(&np.path),
        audio_stream_index: audio_index,
        subtitle_offset_ms: 0,
        subtitle_loading,
    };
    Some(ActiveItemUpdate {
        now_playing,
        item_changed,
        item_ended: item_changed && previous_history_id.is_some(),
        chosen_candidate: candidate,
        next_override_candidate_id,
        audio_tracks,
        audio_resolution,
    })
}

// ---------------------------------------------------------------------------
// The session list
// ---------------------------------------------------------------------------

/// The plain content of a session summary.
pub type SummaryView = (
    Seq<char>,
    Seq<char>,
    MediaServerKind,
    Seq<char>,
    Seq<char>,
    Option<Seq<char>>,
    Option<Seq<char>>,
    bool,
);

pub open spec fn summary_view(s: SessionSummary) -> SummaryView {
    (
        s.id@,
        s.remote_session_id@,
        s.server_kind,
        s.client@,
        s.device_name@,
        opt_view(s.user_name),
        opt_view(s.title),
        s.is_target_language,
    )
}

/// The summary of a server session that plays an item.
pub open spec fn summary_of(s: ServerSession, target: Seq<char>) -> SummaryView {
    (
        server_session_key(s),
        s.session.id@,
        s.kind,
        s.session.client@,
        s.session.device_name@,
        opt_view(s.session.user_name),
        Some(display_title_text(s.session.now_playing->0)),
        plays_language(s.session, target),
    )
}

/// The position of a server kind in the order Emby, Jellyfin, Plex,
/// AudioBookShelf.
pub open spec fn kind_rank(k: MediaServerKind) -> int {
    match k {
        MediaServerKind::Emby => 0,
        MediaServerKind::Jellyfin => 1,
        MediaServerKind::Plex => 2,
        MediaServerKind::Audiobookshelf => 3,
    }
}

/// Whether summary `a` is listed before `b`: by server kind, then device
/// name, client and ID.
pub open spec fn listed_before(a: SummaryView, b: SummaryView) -> bool {
    ||| kind_rank(a.2) < kind_rank(b.2)
    ||| (kind_rank(a.2) == kind_rank(b.2) && (text_less(a.4, b.4) || (a.4 == b.4 && (text_less(a.3, b.3)
        || (a.3 == b.3 && text_less(a.0, b.0))))))
}

/// `x` placed into the list after every summary not listed after it.
pub open spec fn insert_listed(sorted: Seq<SummaryView>, x: SummaryView) -> Seq<SummaryView>
    decreases sorted.len(),
{
    if sorted.len() == 0 {
        seq![x]
    } else if !listed_before(x, sorted.last()) {
        sorted.push(x)
    } else {
        insert_listed(sorted.drop_last(), x).push(sorted.last())
    }
}

/// The summaries in list order (a stable sort by [`listed_before`]).
pub open spec fn sort_listed(s: Seq<SummaryView>) -> Seq<SummaryView>
    decreases s.len(),
{
    if s.len() == 0 {
        Seq::empty()
    } else {
        insert_listed(sort_listed(s.drop_last()), s.last())
    }
}

/// The summaries of the playing sessions, in the order of the sessions.
pub open spec fn playing_summaries(ss: Seq<ServerSession>, target: Seq<char>) -> Seq<SummaryView>
    decreases ss.len(),
{
    if ss.len() == 0 {
        Seq::empty()
    } else if ss.last().session.now_playing is Some {
        playing_summaries(ss.drop_last(), target).push(summary_of(ss.last(), target))
    } else {
        playing_summaries(ss.drop_last(), target)
    }
}

proof fn lemma_insert_listed_at(s: Seq<SummaryView>, x: SummaryView, k: int)
    requires
        0 <= k <= s.len(),
        forall|j: int| k <= j < s.len() ==> listed_before(x, #[trigger] s[j]),
        k == 0 || !listed_before(x, s[k - 1]),
    ensures
        insert_listed(s, x) == s.insert(k, x),
    decreases s.len(),
{
    if s.len() == 0 {
        assert(s.insert(k, x) =~= seq![x]);
    } else if !listed_before(x, s.last()) {
        assert(s.insert(k, x) =~= s.push(x));
    } else {
        lemma_insert_listed_at(s.drop_last(), x, k);
        assert(s.drop_last().insert(k, x).push(s.last()) =~= s.insert(k, x));
    }
}

fn listed_before_exec(a: &SessionSummary, b: &SessionSummary) -> (r: bool)
    ensures
        r == listed_before(summary_view(*a), summary_view(*b)),
{
    let ra: u8 = match a.server_kind {
        MediaServerKind::Emby => 0,
        MediaServerKind::Jellyfin => 1,
        MediaServerKind::Plex => 2,
        MediaServerKind::Audiobookshelf => 3,
    };
    let rb: u8 = match b.server_kind {
        MediaServerKind::Emby => 0,
        MediaServerKind::Jellyfin => 1,
        MediaServerKind::Plex => 2,
        MediaServerKind::Audiobookshelf => 3,
    };
    if ra != rb {
        return ra < rb;
    }
    let ad = chars_of(a.device_name.as_str());
    let bd = chars_of(b.device_name.as_str());
    if !seq_equal(&ad, &bd) {
        return text_less_exec(&ad, &bd);
    }
    proof {
        lemma_text_less_asymmetric(ad@, bd@);
    }
    let ac = chars_of(a.client.as_str());
    let bc = chars_of(b.client.as_str());
    proof {
        lemma_text_less_asymmetric(ac@, bc@);
    }
    if !seq_equal(&ac, &bc) {
        return text_less_exec(&ac, &bc);
    }
    let ai = chars_of(a.id.as_str());
    let bi = chars_of(b.id.as_str());
    text_less_exec(&ai, &bi)
}

fn insert_summary(sorted: &mut Vec<SessionSummary>, x: SessionSummary)
    ensures
        final(sorted)@.map_values(|v: SessionSummary| summary_view(v)) == insert_listed(
            old(sorted)@.map_values(|v: SessionSummary| summary_view(v)),
            summary_view(x),
        ),
{
    let ghost s = sorted@.map_values(|v: SessionSummary| summary_view(v));
    let mut k = sorted.len();
    while k > 0 && listed_before_exec(&x, &sorted[k - 1])
        invariant
            k <= sorted@.len(),
            s == sorted@.map_values(|v: SessionSummary| summary_view(v)),
            forall|j: int| k <= j < sorted@.len() ==> listed_before(summary_view(x), #[trigger] s[j]),
        decreases k,
    {
        k -= 1;
    }
    proof {
        lemma_insert_listed_at(s, summary_view(x), k as int);
    }
    let ghost v = summary_view(x);
    sorted.insert(k, x);
    assert(sorted@.map_values(|v: SessionSummary| summary_view(v)) =~= s.insert(k as int, v));
}

/// The session list shown to the user: a summary of each session that plays
/// an item, ordered by server kind, device name, client and ID.
pub fn session_summaries(sessions: &[ServerSession], target_language: &str) -> (r: Vec<SessionSummary>)
    ensures
        r@.map_values(|v: SessionSummary| summary_view(v)) == sort_listed(
            playing_summaries(sessions@, target_language@),
        ),
{
    let mut r: Vec<SessionSummary> = Vec::new();
    let mut k: usize = 0;
    while k < sessions.len()
        invariant
            k <= sessions@.len(),
            r@.map_values(|v: SessionSummary| summary_view(v)) == sort_listed(
                playing_summaries(sessions@.take(k as int), target_language@),
            ),
        decreases sessions.len() - k,
    {
        let s = &sessions[k];
        assert(sessions@.take(k + 1).drop_last() =~= sessions@.take(k as int));
        match &s.session.now_playing {
            Some(np) => {
                let summary = SessionSummary {
                    id: s.id(),
                    remote_session_id: s.session.id.clone(),
                    server_kind: s.kind,
                    client: s.session.client.clone(),
                    device_name: s.session.device_name.clone(),
                    user_name: clone_opt(&s.session.user_name),
                    title: Some(np.display_title()),
                    is_target_language: np.has_audio_language(target_language),
                };
                assert(summary_view(summary) == summary_of(*s, target_language@));
                assert(playing_summaries(sessions@.take(k + 1), target_language@) == playing_summaries(
                    sessions@.take(k as int),
                    target_language@,
                ).push(summary_of(*s, target_language@)));
                assert(playing_summaries(sessions@.take(k + 1), target_language@).drop_last()
                    =~= playing_summaries(sessions@.take(k as int), target_language@));
                insert_summary(&mut r, summary);
            },
            None => {},
        }
        k += 1;
    }
    assert(sessions@.take(sessions@.len() as int) =~= sessions@);
    r
}

// ---------------------------------------------------------------------------
// Automatic priority order of the polled sessions
// ---------------------------------------------------------------------------

/// Whether `a` is ranked before `b` for automatic following: by
/// [`auto_priority`], then server kind, then key.
pub open spec fn ranked_before(a: ServerSession, b: ServerSession, target: Seq<char>) -> bool {
    then_order(
        auto_priority(a.session, b.session, target),
        then_order(
            if kind_rank(a.kind) < kind_rank(b.kind) {
                Ordering::Less
            } else if kind_rank(a.kind) == kind_rank(b.kind) {
                Ordering::Equal
            } else {
                Ordering::Greater
            },
            text_order(server_session_key(a), server_session_key(b)),
        ),
    ) == Ordering::Less
}

/// `x` placed into the ranking after every session not ranked after it.
pub open spec fn insert_ranked(sorted: Seq<ServerSession>, x: ServerSession, target: Seq<char>) -> Seq<ServerSession>
    decreases sorted.len(),
{
    if sorted.len() == 0 {
        seq![x]
    } else if !ranked_before(x, sorted.last(), target) {
        sorted.push(x)
    } else {
        insert_ranked(sorted.drop_last(), x, target).push(sorted.last())
    }
}

/// The sessions in ranking order (a stable sort by [`ranked_before`]).
pub open spec fn sort_ranked(s: Seq<ServerSession>, target: Seq<char>) -> Seq<ServerSession>
    decreases s.len(),
{
    if s.len() == 0 {
        Seq::empty()
    } else {
        insert_ranked(sort_ranked(s.drop_last(), target), s.last(), target)
    }
}

proof fn lemma_insert_ranked_at(s: Seq<ServerSession>, x: ServerSession, target: Seq<char>, k: int)
    requires
        0 <= k <= s.len(),
        forall|j: int| k <= j < s.len() ==> ranked_before(x, #[trigger] s[j], target),
        k == 0 || !ranked_before(x, s[k - 1], target),
    ensures
        insert_ranked(s, x, target) == s.insert(k, x),
    decreases s.len(),
{
    if s.len() == 0 {
        assert(s.insert(k, x) =~= seq![x]);
    } else if !ranked_before(x, s.last(), target) {
        assert(s.insert(k, x) =~= s.push(x));
    } else {
        lemma_insert_ranked_at(s.drop_last(), x, target, k);
        assert(s.drop_last().insert(k, x).push(s.last()) =~= s.insert(k, x));
    }
}

fn ranked_before_exec(a: &ServerSession, b: &ServerSession, target: &str) -> (r: bool)
    ensures
        r == ranked_before(*a, *b, target@),
{
    match compare_auto_session_priority(&a.session, &b.session, target) {
        Ordering::Less => {
            return true;
        },
        Ordering::Greater => {
            return false;
        },
        Ordering::Equal => {},
    }
    let ra: u8 = match a.kind {
        MediaServerKind::Emby => 0,
        MediaServerKind::Jellyfin => 1,
        MediaServerKind::Plex => 2,
        MediaServerKind::Audiobookshelf => 3,
    };
    let rb: u8 = match b.kind {
        MediaServerKind::Emby => 0,
        MediaServerKind::Jellyfin => 1,
        MediaServerKind::Plex => 2,
        MediaServerKind::Audiobookshelf => 3,
    };
    if ra != rb {
        return ra < rb;
    }
    let ka = a.id();
    let kb = b.id();
    match order_texts(ka.as_str(), kb.as_str()) {
        Ordering::Less => true,
        _ => false,
    }
}

/// Orders polled sessions for automatic following: by
/// [`compare_auto_session_priority`], then server kind, then key; equal
/// sessions keep their order.
pub fn sort_by_auto_priority(sessions: Vec<ServerSession>, target_language: &str) -> (r: Vec<ServerSession>)
    ensures
        r@ == sort_ranked(sessions@, target_language@),
{
    let ghost all = sessions@;
    let n = sessions.len();
    let mut rest = sessions;
    let mut sorted: Vec<ServerSession> = Vec::new();
    let mut taken: usize = 0;
    while rest.len() > 0
        invariant
            all.len() == n,
            taken + rest@.len() == all.len(),
            rest@ == all.skip(taken as int),
            sorted@ == sort_ranked(all.take(taken as int), target_language@),
        decreases rest@.len(),
    {
        let x = rest.remove(0);
        proof {
            assert(x == all[taken as int]);
            assert(all.take(taken + 1).drop_last() =~= all.take(taken as int));
            assert(rest@ =~= all.skip(taken + 1));
        }
        let ghost s = sorted@;
        let mut k = sorted.len();
        while k > 0 && ranked_before_exec(&x, &sorted[k - 1], target_language)
            invariant
                k <= sorted@.len(),
                sorted@ == s,
                forall|j: int| k <= j < s.len() ==> ranked_before(x, #[trigger] s[j], target_language@),
            decreases k,
        {
            k -= 1;
        }
        proof {
            lemma_insert_ranked_at(s, x, target_language@, k as int);
        }
        sorted.insert(k, x);
        taken += 1;
    }
    assert(all.take(all.len() as int) =~= all);
    sorted
}

// ---------------------------------------------------------------------------
// Fuzzy sidecar matching
// ---------------------------------------------------------------------------

/// A file name reduced for similarity: each character lower-cased (Unicode),
/// keeping only alphanumeric characters.
pub open spec fn filename_key(s: Seq<char>) -> Seq<char>
    decreases s.len(),
{
    if s.len() == 0 {
        Seq::empty()
    } else {
        filename_key(s.drop_last()) + unicode_lower_char(s.last()).filter(
            |c: char| unicode_alphanumeric(c),
        )
    }
}

fn filename_key_exec(value: &str) -> (r: Vec<char>)
    ensures
        r@ == filename_key(value@),
{
    let v = chars_of(value);
    let mut r: Vec<char> = Vec::new();
    let mut i: usize = 0;
    while i < v.len()
        invariant
            i <= v@.len(),
            r@ == filename_key(v@.take(i as int)),
            v@ == value@,
        decreases v.len() - i,
    {
        assert(v@.take(i + 1).drop_last() =~= v@.take(i as int));
        let low = lowercase_char(v[i]);
        let ghost before = r@;
        let mut k: usize = 0;
        while k < low.len()
            invariant
                k <= low@.len(),
                r@ == before + low@.take(k as int).filter(|c: char| unicode_alphanumeric(c)),
            decreases low.len() - k,
        {
            let c = low[k];
            proof {
                let t = low@.take(k + 1);
                assert(t.drop_last() =~= low@.take(k as int));
                assert(t.last() == c);
                reveal(Seq::filter);
            }
            if is_alphanumeric_char(c) {
                r.push(c);
                assert(r@ =~= before + low@.take(k + 1).filter(|c: char| unicode_alphanumeric(c)));
            } else {
                assert(low@.take(k + 1).filter(|c: char| unicode_alphanumeric(c)) == low@.take(k as int).filter(
                    |c: char| unicode_alphanumeric(c),
                ));
            }
            k += 1;
        }
        assert(low@.take(low@.len() as int) =~= low@);
        i += 1;
    }
    assert(v@.take(v@.len() as int) =~= v@);
    r
}

/// The edit (Levenshtein) distance between `a[..i]` and `b[..j]`.
pub open spec fn edit_distance(a: Seq<char>, b: Seq<char>, i: int, j: int) -> int
    decreases i + j,
{
    if i <= 0 {
        if j < 0 {
            0
        } else {
            j
        }
    } else if j <= 0 {
        i
    } else {
        let del = edit_distance(a, b, i - 1, j) + 1;
        let ins = edit_distance(a, b, i, j - 1) + 1;
        let sub = edit_distance(a, b, i - 1, j - 1) + if a[i - 1] == b[j - 1] {
            0int
        } else {
            1
        };
        let m = if del <= ins {
            del
        } else {
            ins
        };
        if m <= sub {
            m
        } else {
            sub
        }
    }
}

proof fn lemma_edit_distance_bounds(a: Seq<char>, b: Seq<char>, i: int, j: int)
    requires
        0 <= i,
        0 <= j,
    ensures
        0 <= edit_distance(a, b, i, j),
        edit_distance(a, b, i, j) <= (if i >= j {
            i
        } else {
            j
        }),
    decreases i + j,
{
    if i > 0 && j > 0 {
        lemma_edit_distance_bounds(a, b, i - 1, j);
        lemma_edit_distance_bounds(a, b, i, j - 1);
        lemma_edit_distance_bounds(a, b, i - 1, j - 1);
    }
}

/// Edit distance, computed row by row.
fn edit_distance_exec(a: &[char], b: &[char]) -> (r: u128)
    ensures
        r == edit_distance(a@, b@, a@.len() as int, b@.len() as int),
{
    let m = a.len();
    let n = b.len();
    let mut prev: Vec<u128> = Vec::new();
    let mut j: usize = 0;
    while j < n
        invariant
            n == b@.len(),
            j <= n,
            prev@.len() == j,
            forall|t: int| 0 <= t < j ==> #[trigger] prev@[t] == edit_distance(a@, b@, 0, t + 1),
        decreases n - j,
    {
        prev.push(j as u128 + 1);
        j += 1;
    }
    let mut i: usize = 0;
    while i < m
        invariant
            m == a@.len(),
            n == b@.len(),
            i <= m,
            prev@.len() == n,
            forall|t: int| 0 <= t < n ==> #[trigger] prev@[t] == edit_distance(a@, b@, i as int, t + 1),
        decreases m - i,
    {
        let mut cur: Vec<u128> = Vec::new();
        let mut left: u128 = i as u128 + 1;
        let mut j: usize = 0;
        while j < n
            invariant
                m == a@.len(),
                n == b@.len(),
                i < m,
                j <= n,
                prev@.len() == n,
                forall|t: int| 0 <= t < n ==> #[trigger] prev@[t] == edit_distance(a@, b@, i as int, t + 1),
                cur@.len() == j,
                forall|t: int| 0 <= t < j ==> #[trigger] cur@[t] == edit_distance(a@, b@, i + 1, t + 1),
                left == edit_distance(a@, b@, i + 1, j as int),
            decreases n - j,
        {
            proof {
                lemma_edit_distance_bounds(a@, b@, i as int, j + 1);
                lemma_edit_distance_bounds(a@, b@, i + 1, j as int);
                lemma_edit_distance_bounds(a@, b@, i as int, j as int);
            }
            let up = prev[j];
            let diag: u128 = if j == 0 {
                i as u128
            } else {
                prev[j - 1]
            };
            let cost: u128 = if a[i] == b[j] {
                0
            } else {
                1
            };
            let d = up + 1;
            let l = left + 1;
            let g = diag + cost;
            let mm = if d <= l {
                d
            } else {
                l
            };
            let v = if mm <= g {
                mm
            } else {
                g
            };
            cur.push(v);
            left = v;
            j += 1;
        }
        prev = cur;
        i += 1;
    }
    if n == 0 {
        m as u128
    } else {
        prev[n - 1]
    }
}

/// ASCII digits with leading zeros removed (`0` for all zeros).
pub open spec fn without_leading_zeros(t: Seq<char>) -> Seq<char>
    decreases t.len(),
{
    if t.len() == 0 {
        seq!['0']
    } else if t[0] == '0' {
        without_leading_zeros(t.drop_first())
    } else {
        t
    }
}

/// The last index at or before `i` that holds an ASCII digit.
pub open spec fn last_digit_at_or_before(s: Seq<char>, i: int) -> Option<int>
    decreases i + 1,
{
    if i < 0 || i >= s.len() {
        None
    } else if is_digit(s[i]) {
        Some(i)
    } else {
        last_digit_at_or_before(s, i - 1)
    }
}

/// The start of the run of ASCII digits that ends at `e`.
pub open spec fn digit_run_start(s: Seq<char>, e: int) -> int
    decreases e,
{
    if e > 0 && e <= s.len() && is_digit(s[e - 1]) {
        digit_run_start(s, e - 1)
    } else {
        e
    }
}

/// The last number in a file name (its last run of ASCII digits, leading
/// zeros dropped), if any.
pub open spec fn last_number(s: Seq<char>) -> Option<Seq<char>> {
    match last_digit_at_or_before(s, s.len() - 1) {
        Some(e) => Some(without_leading_zeros(s.subrange(digit_run_start(s, e), e + 1))),
        None => None,
    }
}

proof fn lemma_last_digit(s: Seq<char>, i: int)
    ensures
        last_digit_at_or_before(s, i) matches Some(e) ==> 0 <= e <= i && e < s.len() && is_digit(s[e]),
        last_digit_at_or_before(s, i) is None && i < s.len() ==> forall|k: int| 0 <= k <= i ==> !is_digit(#[trigger] s[k]),
    decreases i + 1,
{
    if 0 <= i < s.len() && !is_digit(s[i]) {
        lemma_last_digit(s, i - 1);
    }
}

proof fn lemma_digit_run_start(s: Seq<char>, e: int)
    requires
        0 <= e <= s.len(),
    ensures
        0 <= digit_run_start(s, e) <= e,
    decreases e,
{
    if e > 0 && is_digit(s[e - 1]) {
        lemma_digit_run_start(s, e - 1);
    }
}

fn last_number_exec(s: &[char]) -> (r: Option<Vec<char>>)
    ensures
        match r {
            Some(v) => last_number(s@) == Some(v@),
            None => last_number(s@) is None,
        },
{
    let mut e = s.len();
    while e > 0 && !('0' <= s[e - 1] && s[e - 1] <= '9')
        invariant
            e <= s@.len(),
            last_digit_at_or_before(s@, s@.len() - 1) == last_digit_at_or_before(s@, e - 1),
        decreases e,
    {
        e -= 1;
    }
    if e == 0 {
        return None;
    }
    let end = e;
    let mut b = end - 1;
    proof {
        lemma_digit_run_start(s@, end - 1);
    }
    while b > 0 && '0' <= s[b - 1] && s[b - 1] <= '9'
        invariant
            b < end <= s@.len(),
            digit_run_start(s@, end - 1) == digit_run_start(s@, b as int),
        decreases b,
    {
        b -= 1;
    }
    let mut z = b;
    let ghost run = s@.subrange(b as int, end as int);
    assert(s@.subrange(z as int, end as int) =~= run);
    while z < end && s[z] == '0'
        invariant
            b <= z <= end <= s@.len(),
            run == s@.subrange(b as int, end as int),
            without_leading_zeros(run) == without_leading_zeros(s@.subrange(z as int, end as int)),
        decreases end - z,
    {
        assert(s@.subrange(z as int, end as int).drop_first() =~= s@.subrange(z + 1, end as int));
        z += 1;
    }
    if z == end {
        let mut v: Vec<char> = Vec::new();
        v.push('0');
        assert(s@.subrange(z as int, end as int) =~= Seq::<char>::empty());
        assert(v@ =~= seq!['0']);
        Some(v)
    } else {
        let v = slice_vec(s, z, end);
        Some(v)
    }
}

/// The similarity in percent of a subtitle file stem to the media stem:
/// `100 * (1 - distance / length)` (rounded half up) on the reduced names,
/// halved when both names end in different numbers; 0 when both reduced
/// names are empty.
pub open spec fn filename_confidence(media_stem: Seq<char>, subtitle_stem: Seq<char>) -> int {
    let a = filename_key(media_stem);
    let b = filename_key(subtitle_stem);
    let m = if a.len() >= b.len() {
        a.len() as int
    } else {
        b.len() as int
    };
    if m == 0 {
        0
    } else {
        let d = edit_distance(a, b, a.len() as int, b.len() as int);
        let c = ((m - d) * 100 + m / 2) / m;
        if last_number(media_stem) is Some && last_number(subtitle_stem) is Some && last_number(media_stem)
            != last_number(subtitle_stem) {
            c / 2
        } else {
            c
        }
    }
}

/// The similarity in percent of a subtitle file stem to the media stem
/// (see [`filename_confidence`]).
pub fn subtitle_filename_confidence(media_stem: &str, subtitle_stem: &str) -> (r: u8)
    ensures
        r == filename_confidence(media_stem@, subtitle_stem@),
{
    let a = filename_key_exec(media_stem);
    let b = filename_key_exec(subtitle_stem);
    let m: u128 = if a.len() >= b.len() {
        a.len() as u128
    } else {
        b.len() as u128
    };
    if m == 0 {
        return 0;
    }
    let d = edit_distance_exec(&a, &b);
    proof {
        lemma_edit_distance_bounds(a@, b@, a@.len() as int, b@.len() as int);
    }
    assert(m <= usize::MAX);
    let num: u128 = (m - d) * 100 + m / 2;
    let mut c: u128 = num / m;
    proof {
        let mi = m as int;
        let di = d as int;
        let ni = num as int;
        assert(ni == (mi - di) * 100 + mi / 2);
        assert(ni < 101 * mi) by (nonlinear_arith)
            requires
                ni == (mi - di) * 100 + mi / 2,
                0 <= di <= mi,
                mi > 0,
        ;
        assert(ni / mi <= 100) by (nonlinear_arith)
            requires
                0 <= ni < 101 * mi,
                mi > 0,
        ;
    }
    let sa = chars_of(media_stem);
    let sb = chars_of(subtitle_stem);
    let na = last_number_exec(&sa);
    let nb = last_number_exec(&sb);
    match (&na, &nb) {
        (Some(x), Some(y)) => {
            if !seq_equal(x, y) {
                c = c / 2;
            }
        },
        _ => {},
    }
    c as u8
}

/// Whether a file is a fuzzy sidecar candidate: an SRT file (any case).
pub open spec fn is_fuzzy_sidecar(path: Seq<char>) -> bool {
    &&& path_file_name(path) is Some
    &&& subtitle_extension(split_file_name(path_file_name(path)->0).1) == Some("srt"@)
}

/// The candidate for an SRT file of the media directory, ranked by name
/// similarity.
pub open spec fn fuzzy_candidate_is(c: SubtitleCandidate, video_stem: Seq<char>, path: Seq<char>) -> bool {
    let name = path_file_name(path)->0;
    let stem = split_file_name(name).0;
    let conf = filename_confidence(video_stem, stem);
    &&& c.id@ == "sidecar:"@ + name
    &&& c.source == SubtitleCandidateSource::Sidecar
    &&& c.stream_index is None
    &&& c.language is None
    &&& c.label@ == name + " (SRT Sidecar · "@ + decimal_digits(conf as nat) + "% match)"@
    &&& opt_view(c.codec) == Some("srt"@)
    &&& !c.is_default
    &&& c.is_external
    &&& !c.is_selected_in_session
    &&& c.match_confidence == Some(conf as u8)
    &&& opt_view(c.local_path) == Some(path)
    &&& !c.is_exact_file_match
}

/// The fuzzy candidate for an SRT file of the media directory.
pub fn fuzzy_sidecar_subtitle_candidate(video_stem: &str, subtitle_path: &str) -> (r: Option<SubtitleCandidate>)
    ensures
        match r {
            Some(c) => is_fuzzy_sidecar(subtitle_path@) && fuzzy_candidate_is(c, video_stem@, subtitle_path@),
            None => !is_fuzzy_sidecar(subtitle_path@),
        },
{
    let path = chars_of(subtitle_path);
    let name = match path_file_name_exec(&path) {
        Some(n) => n,
        None => {
            return None;
        },
    };
    let (stem, ext) = split_file_name_exec(&name);
    let format = match ext {
        Some(e) => match subtitle_extension_exec(&e) {
            Some(f) => f,
            None => {
                return None;
            },
        },
        None => {
            return None;
        },
    };
    if !chars_are(&format, "srt") {
        return None;
    }
    let stem_text = string_of(&stem);
    let conf = subtitle_filename_confidence(video_stem, stem_text.as_str());
    let mut id: Vec<char> = Vec::new();
    append_str(&mut id, "sidecar:");
    append(&mut id, &name);
    let mut label: Vec<char> = Vec::new();
    append(&mut label, &name);
    append_str(&mut label, " (SRT Sidecar · ");
    append(&mut label, &u64_digits(conf as u64));
    append_str(&mut label, "% match)");
    Some(SubtitleCandidate {
        id: string_of(&id),
        source: SubtitleCandidateSource::Sidecar,
        stream_index: None,
        language: None,
        label: string_of(&label),
        codec: Some(owned("srt")),
        is_default: false,
        is_external: true,
        is_selected_in_session: false,
        match_confidence: Some(conf),
        local_path: Some(owned(subtitle_path)),
        is_exact_file_match: false,
    })
}

/// The ranking key of a candidate: ID, label, similarity and file.
pub type CandidateKey = (Seq<char>, Seq<char>, Option<u8>, Option<Seq<char>>);

pub open spec fn candidate_key(c: SubtitleCandidate) -> CandidateKey {
    (c.id@, c.label@, c.match_confidence, opt_view(c.local_path))
}

/// The ranking key of the fuzzy candidate of a file.
pub open spec fn fuzzy_key(video_stem: Seq<char>, path: Seq<char>) -> CandidateKey {
    let name = path_file_name(path)->0;
    let conf = filename_confidence(video_stem, split_file_name(name).0);
    (
        "sidecar:"@ + name,
        name + " (SRT Sidecar · "@ + decimal_digits(conf as nat) + "% match)"@,
        Some(conf as u8),
        Some(path),
    )
}

/// Whether key `a` is ranked before `b`: higher similarity first, then by
/// the lower-cased label.
pub open spec fn key_before(a: CandidateKey, b: CandidateKey) -> bool {
    let ca: int = match a.2 {
        Some(x) => x as int,
        None => -1,
    };
    let cb: int = match b.2 {
        Some(x) => x as int,
        None => -1,
    };
    ca > cb || (ca == cb && text_less(unicode_lower(a.1), unicode_lower(b.1)))
}

/// `x` placed into the ranking after every key not ranked after it.
pub open spec fn insert_key(sorted: Seq<CandidateKey>, x: CandidateKey) -> Seq<CandidateKey>
    decreases sorted.len(),
{
    if sorted.len() == 0 {
        seq![x]
    } else if !key_before(x, sorted.last()) {
        sorted.push(x)
    } else {
        insert_key(sorted.drop_last(), x).push(sorted.last())
    }
}

/// The keys in ranking order (a stable sort by [`key_before`]).
pub open spec fn sort_keys(s: Seq<CandidateKey>) -> Seq<CandidateKey>
    decreases s.len(),
{
    if s.len() == 0 {
        Seq::empty()
    } else {
        insert_key(sort_keys(s.drop_last()), s.last())
    }
}

/// The fuzzy keys of the SRT files among the paths, in path order.
pub open spec fn fuzzy_keys(video_stem: Seq<char>, paths: Seq<String>) -> Seq<CandidateKey>
    decreases paths.len(),
{
    if paths.len() == 0 {
        Seq::empty()
    } else if is_fuzzy_sidecar(paths.last()@) {
        fuzzy_keys(video_stem, paths.drop_last()).push(fuzzy_key(video_stem, paths.last()@))
    } else {
        fuzzy_keys(video_stem, paths.drop_last())
    }
}

/// The paths that are exact sidecars of the media stem, in order.
pub open spec fn exact_sidecar_paths(video_stem: Seq<char>, paths: Seq<String>) -> Seq<Seq<char>>
    decreases paths.len(),
{
    if paths.len() == 0 {
        Seq::empty()
    } else if is_sidecar_for(video_stem, paths.last()@) {
        exact_sidecar_paths(video_stem, paths.drop_last()).push(paths.last()@)
    } else {
        exact_sidecar_paths(video_stem, paths.drop_last())
    }
}

/// The similarity of a ranking key (none counts as -1).
pub open spec fn key_confidence(k: CandidateKey) -> int {
    match k.2 {
        Some(x) => x as int,
        None => -1,
    }
}

/// Whether the keys come most similar first.
pub open spec fn most_similar_first(s: Seq<CandidateKey>) -> bool {
    forall|i: int, j: int| 0 <= i < j < s.len() ==> key_confidence(#[trigger] s[i]) >= key_confidence(#[trigger] s[j])
}

proof fn lemma_insert_key_ranked(s: Seq<CandidateKey>, x: CandidateKey)
    requires
        most_similar_first(s),
    ensures
        most_similar_first(insert_key(s, x)),
        forall|i: int| 0 <= i < insert_key(s, x).len() ==> #[trigger] insert_key(s, x)[i] == x || s.contains(
            insert_key(s, x)[i],
        ),
        insert_key(s, x).len() == s.len() + 1,
    decreases s.len(),
{
    if s.len() == 0 {
    } else if !key_before(x, s.last()) {
        let t = s.push(x);
        assert forall|i: int| 0 <= i < t.len() implies #[trigger] t[i] == x || s.contains(t[i]) by {
            if i < s.len() {
                assert(t[i] == s[i]);
            }
        }
        assert forall|i: int, j: int| 0 <= i < j < t.len() implies key_confidence(#[trigger] t[i]) >= key_confidence(
            #[trigger] t[j],
        ) by {
            if j == s.len() {
                assert(t[i] == s[i]);
                if i < s.len() - 1 {
                    assert(key_confidence(s[i]) >= key_confidence(s[s.len() - 1]));
                }
            } else {
                assert(t[i] == s[i] && t[j] == s[j]);
            }
        }
    } else {
        let d = s.drop_last();
        assert forall|i: int, j: int| 0 <= i < j < d.len() implies key_confidence(#[trigger] d[i]) >= key_confidence(
            #[trigger] d[j],
        ) by {
            assert(d[i] == s[i] && d[j] == s[j]);
        }
        lemma_insert_key_ranked(d, x);
        let u = insert_key(d, x);
        let t = u.push(s.last());
        assert forall|i: int| 0 <= i < t.len() implies #[trigger] t[i] == x || s.contains(t[i]) by {
            if i < u.len() {
                assert(t[i] == u[i]);
                if u[i] != x {
                    assert(d.contains(u[i]));
                    let w = choose|w: int| 0 <= w < d.len() && d[w] == u[i];
                    assert(s[w] == u[i]);
                }
            } else {
                assert(s[s.len() - 1] == t[i]);
            }
        }
        assert forall|i: int, j: int| 0 <= i < j < t.len() implies key_confidence(#[trigger] t[i]) >= key_confidence(
            #[trigger] t[j],
        ) by {
            if j == u.len() {
                assert(t[i] == u[i]);
                if u[i] != x {
                    assert(d.contains(u[i]));
                    let w = choose|w: int| 0 <= w < d.len() && d[w] == u[i];
                    assert(d[w] == s[w]);
                    assert(key_confidence(s[w]) >= key_confidence(s[s.len() - 1]));
                }
            } else {
                assert(t[i] == u[i] && t[j] == u[j]);
            }
        }
    }
}

proof fn lemma_sort_keys_ranked(s: Seq<CandidateKey>)
    ensures
        most_similar_first(sort_keys(s)),
    decreases s.len(),
{
    if s.len() > 0 {
        lemma_sort_keys_ranked(s.drop_last());
        lemma_insert_key_ranked(sort_keys(s.drop_last()), s.last());
    }
}

/// Fuzzy sidecar subtitles are ranked by filename similarity: the most
/// similar file comes first.
pub proof fn lemma_fuzzy_sidecars_ranked(video_stem: Seq<char>, paths: Seq<String>)
    ensures
        most_similar_first(sort_keys(fuzzy_keys(video_stem, paths))),
{
    lemma_sort_keys_ranked(fuzzy_keys(video_stem, paths));
}

proof fn lemma_insert_key_at(s: Seq<CandidateKey>, x: CandidateKey, k: int)
    requires
        0 <= k <= s.len(),
        forall|j: int| k <= j < s.len() ==> key_before(x, #[trigger] s[j]),
        k == 0 || !key_before(x, s[k - 1]),
    ensures
        insert_key(s, x) == s.insert(k, x),
    decreases s.len(),
{
    if s.len() == 0 {
        assert(s.insert(k, x) =~= seq![x]);
    } else if !key_before(x, s.last()) {
        assert(s.insert(k, x) =~= s.push(x));
    } else {
        lemma_insert_key_at(s.drop_last(), x, k);
        assert(s.drop_last().insert(k, x).push(s.last()) =~= s.insert(k, x));
    }
}

fn key_before_exec(a: &SubtitleCandidate, b: &SubtitleCandidate) -> (r: bool)
    ensures
        r == key_before(candidate_key(*a), candidate_key(*b)),
{
    let ca: i32 = match a.match_confidence {
        Some(x) => x as i32,
        None => -1,
    };
    let cb: i32 = match b.match_confidence {
        Some(x) => x as i32,
        None => -1,
    };
    if ca != cb {
        return ca > cb;
    }
    let la = to_lowercase_text(a.label.as_str());
    let lb = to_lowercase_text(b.label.as_str());
    text_less_exec(&chars_of(la.as_str()), &chars_of(lb.as_str()))
}

/// Whether a candidate has the fixed fields of a fuzzy sidecar candidate.
pub open spec fn fuzzy_fixed_fields(c: SubtitleCandidate) -> bool {
    &&& c.source == SubtitleCandidateSource::Sidecar
    &&& c.stream_index is None
    &&& c.language is None
    &&& opt_view(c.codec) == Some("srt"@)
    &&& !c.is_default
    &&& c.is_external
    &&& !c.is_selected_in_session
    &&& !c.is_exact_file_match
}

/// The subtitle candidates found beside a media file, given the paths of
/// the files of its directory in sorted order: the exact sidecars (see
/// [`sidecar_subtitle_candidate`]) in path order when there are any; else
/// every SRT file, most similar name first (see
/// [`fuzzy_sidecar_subtitle_candidate`]).
pub fn sidecar_subtitle_candidates(video_stem: &str, sorted_paths: &[String]) -> (r: Vec<SubtitleCandidate>)
    ensures
        ({
            let exact = exact_sidecar_paths(video_stem@, sorted_paths@);
            if exact.len() > 0 {
                &&& r@.len() == exact.len()
                &&& forall|i: int| 0 <= i < r@.len() ==> sidecar_candidate_is(#[trigger] r@[i], video_stem@, exact[i])
            } else {
                &&& r@.map_values(|c: SubtitleCandidate| candidate_key(c)) == sort_keys(fuzzy_keys(video_stem@, sorted_paths@))
                &&& forall|i: int| 0 <= i < r@.len() ==> fuzzy_fixed_fields(#[trigger] r@[i])
            }
        }),
{
    let mut exact: Vec<SubtitleCandidate> = Vec::new();
    let mut k: usize = 0;
    while k < sorted_paths.len()
        invariant
            k <= sorted_paths@.len(),
            exact@.len() == exact_sidecar_paths(video_stem@, sorted_paths@.take(k as int)).len(),
            forall|i: int| 0 <= i < exact@.len() ==> sidecar_candidate_is(#[trigger] exact@[i], video_stem@,
                exact_sidecar_paths(video_stem@, sorted_paths@.take(k as int))[i]),
        decreases sorted_paths.len() - k,
    {
        assert(sorted_paths@.take(k + 1).drop_last() =~= sorted_paths@.take(k as int));
        match sidecar_subtitle_candidate(video_stem, sorted_paths[k].as_str()) {
            Some(c) => {
                exact.push(c);
            },
            None => {},
        }
        k += 1;
    }
    assert(sorted_paths@.take(sorted_paths@.len() as int) =~= sorted_paths@);
    if exact.len() > 0 {
        return exact;
    }
    let mut sorted: Vec<SubtitleCandidate> = Vec::new();
    let mut k: usize = 0;
    while k < sorted_paths.len()
        invariant
            k <= sorted_paths@.len(),
            sorted@.map_values(|c: SubtitleCandidate| candidate_key(c)) == sort_keys(
                fuzzy_keys(video_stem@, sorted_paths@.take(k as int)),
            ),
            forall|i: int| 0 <= i < sorted@.len() ==> fuzzy_fixed_fields(#[trigger] sorted@[i]),
        decreases sorted_paths.len() - k,
    {
        assert(sorted_paths@.take(k + 1).drop_last() =~= sorted_paths@.take(k as int));
        match fuzzy_sidecar_subtitle_candidate(video_stem, sorted_paths[k].as_str()) {
            Some(c) => {
                let ghost s = sorted@.map_values(|c: SubtitleCandidate| candidate_key(c));
                let ghost old_sorted = sorted@;
                assert(candidate_key(c) == fuzzy_key(video_stem@, sorted_paths@[k as int]@));
                let mut p = sorted.len();
                while p > 0 && key_before_exec(&c, &sorted[p - 1])
                    invariant
                        p <= sorted@.len(),
                        s == sorted@.map_values(|c: SubtitleCandidate| candidate_key(c)),
                        forall|j: int| p <= j < s.len() ==> key_before(candidate_key(c), #[trigger] s[j]),
                    decreases p,
                {
                    p -= 1;
                }
                proof {
                    lemma_insert_key_at(s, candidate_key(c), p as int);
                }
                let ghost ck = candidate_key(c);
                sorted.insert(p, c);
                assert(sorted@.map_values(|c: SubtitleCandidate| candidate_key(c)) =~= s.insert(p as int, ck));
                proof {
                    let t = sorted_paths@.take(k as int);
                    let t1 = sorted_paths@.take(k + 1);
                    assert(t1.last() == sorted_paths@[k as int]);
                    let fk = fuzzy_keys(video_stem@, t);
                    assert(fuzzy_keys(video_stem@, t1) == fk.push(ck));
                    assert(fk.push(ck).drop_last() =~= fk);
                    assert(sort_keys(fk.push(ck)) == insert_key(sort_keys(fk), ck));
                }
                assert forall|i: int| 0 <= i < sorted@.len() implies fuzzy_fixed_fields(#[trigger] sorted@[i]) by {
                    if i < p {
                        assert(sorted@[i] == old_sorted[i]);
                    } else if i > p {
                        assert(sorted@[i] == old_sorted[i - 1]);
                    }
                }
            },
            None => {
                assert(sorted_paths@.take(k + 1).last() == sorted_paths@[k as int]);
                assert(fuzzy_keys(video_stem@, sorted_paths@.take(k + 1)) == fuzzy_keys(
                    video_stem@,
                    sorted_paths@.take(k as int),
                ));
            },
        }
        k += 1;
    }
    sorted
}

// ---------------------------------------------------------------------------
// Disk fallback
// ---------------------------------------------------------------------------

/// Whether a sidecar may stand in for the chosen track: for a chosen server
/// track, a sidecar in the target language or in the track's language; with
/// no chosen track, a sidecar in the target language.
pub open spec fn fallback_fits(s: SubtitleCandidate, chosen: Option<SubtitleCandidate>, target: Seq<char>) -> bool {
    match chosen {
        Some(c) => c.source == SubtitleCandidateSource::Server && (language_matches(opt_view(s.language), target)
            || (c.language is Some && opt_view(s.language) == opt_view(c.language))),
        None => language_matches(opt_view(s.language), target),
    }
}

/// The first position at or after `k` whose sidecar fits.
pub open spec fn first_fitting(cs: Seq<SubtitleCandidate>, chosen: Option<SubtitleCandidate>, target: Seq<char>, k: int) -> Option<int>
    decreases cs.len() - k,
{
    if k < 0 || k >= cs.len() {
        None
    } else if fallback_fits(cs[k], chosen, target) {
        Some(k)
    } else {
        first_fitting(cs, chosen, target, k + 1)
    }
}

/// The first position at or after `k` of a sidecar without a language.
pub open spec fn first_unlabelled(cs: Seq<SubtitleCandidate>, k: int) -> Option<int>
    decreases cs.len() - k,
{
    if k < 0 || k >= cs.len() {
        None
    } else if cs[k].language is None {
        Some(k)
    } else {
        first_unlabelled(cs, k + 1)
    }
}

/// The sidecar read from disk when the chosen track could not be loaded:
/// the first that fits (see [`fallback_fits`]), else the first without a
/// language, else the first.
pub open spec fn fallback_choice(cs: Seq<SubtitleCandidate>, chosen: Option<SubtitleCandidate>, target: Seq<char>) -> Option<int> {
    match first_fitting(cs, chosen, target, 0) {
        Some(k) => Some(k),
        None => match first_unlabelled(cs, 0) {
            Some(k) => Some(k),
            None => if cs.len() > 0 {
                Some(0)
            } else {
                None
            },
        },
    }
}

/// The position of the sidecar to fall back to (see [`fallback_choice`]).
pub fn fallback_sidecar(sidecars: &[SubtitleCandidate], chosen: Option<&SubtitleCandidate>, target_lang: &str) -> (r: Option<usize>)
    ensures
        match r {
            Some(k) => fallback_choice(sidecars@, match chosen {
                Some(c) => Some(*c),
                None => None,
            }, target_lang@) == Some(k as int),
            None => fallback_choice(sidecars@, match chosen {
                Some(c) => Some(*c),
                None => None,
            }, target_lang@) is None,
        },
{
    let ghost ch = match chosen {
        Some(c) => Some(*c),
        None => None,
    };
    let mut k: usize = 0;
    while k < sidecars.len()
        invariant
            k <= sidecars@.len(),
            ch == (match chosen {
                Some(c) => Some(*c),
                None => None,
            }),
            first_fitting(sidecars@, ch, target_lang@, 0) == first_fitting(sidecars@, ch, target_lang@, k as int),
        decreases sidecars.len() - k,
    {
        let s = &sidecars[k];
        let s_lang: Option<&str> = match &s.language {
            Some(l) => Some(l.as_str()),
            None => None,
        };
        let fits = match chosen {
            Some(c) => {
                let server = match c.source {
                    SubtitleCandidateSource::Server => true,
                    _ => false,
                };
                server && (language_matches_target(s_lang, target_lang) || (c.language.is_some() && opt_equal(
                    &s.language,
                    &c.language,
                )))
            },
            None => language_matches_target(s_lang, target_lang),
        };
        if fits {
            return Some(k);
        }
        k += 1;
    }
    let mut j: usize = 0;
    while j < sidecars.len()
        invariant
            j <= sidecars@.len(),
            first_unlabelled(sidecars@, 0) == first_unlabelled(sidecars@, j as int),
            ch == (match chosen {
                Some(c) => Some(*c),
                None => None,
            }),
            first_fitting(sidecars@, ch, target_lang@, 0) is None,
        decreases sidecars.len() - j,
    {
        if sidecars[j].language.is_none() {
            return Some(j);
        }
        j += 1;
    }
    if sidecars.len() > 0 {
        Some(0)
    } else {
        None
    }
}

// ---------------------------------------------------------------------------
// Polling
// ---------------------------------------------------------------------------

/// The wait between polls, in ms, given the configured server kinds, whether
/// Plex's notification websocket is connected and the kind of the followed
/// item's server: 5 s while a followed Plex item is covered by the
/// websocket; 100 ms while an item is followed and a server other than Plex
/// is configured; otherwise 5 s with Plex and its websocket, else 1 s.
pub open spec fn poll_interval(kinds: Seq<MediaServerKind>, websocket: bool, active: Option<MediaServerKind>) -> u64 {
    let has_plex = kinds.contains(MediaServerKind::Plex);
    let has_other = exists|i: int| 0 <= i < kinds.len() && kinds[i] != MediaServerKind::Plex;
    if has_plex && websocket && active == Some(MediaServerKind::Plex) {
        5000
    } else if has_other && active is Some {
        100
    } else if has_plex && websocket {
        5000
    } else {
        1000
    }
}

/// The wait between polls, in ms (see [`poll_interval`]).
pub fn poll_interval_ms(
    server_kinds: &[MediaServerKind],
    plex_websocket_connected: bool,
    active_kind: Option<MediaServerKind>,
) -> (r: u64)
    ensures
        r == poll_interval(server_kinds@, plex_websocket_connected, active_kind),
{
    let mut has_plex = false;
    let mut has_other = false;
    let mut k: usize = 0;
    while k < server_kinds.len()
        invariant
            k <= server_kinds@.len(),
            has_plex == exists|i: int| 0 <= i < k && server_kinds@[i] == MediaServerKind::Plex,
            has_other == exists|i: int| 0 <= i < k && server_kinds@[i] != MediaServerKind::Plex,
        decreases server_kinds.len() - k,
    {
        if server_kinds[k] == MediaServerKind::Plex {
            has_plex = true;
        } else {
            has_other = true;
        }
        k += 1;
    }
    proof {
        if has_plex {
            let i = choose|i: int| 0 <= i < k && server_kinds@[i] == MediaServerKind::Plex;
            assert(server_kinds@.contains(server_kinds@[i]));
        }
    }
    let active_plex = match active_kind {
        Some(MediaServerKind::Plex) => true,
        _ => false,
    };
    if has_plex && plex_websocket_connected && active_plex {
        5000
    } else if has_other && active_kind.is_some() {
        100
    } else if has_plex && plex_websocket_connected {
        5000
    } else {
        1000
    }
}

// ---------------------------------------------------------------------------
// The user's subtitle choice
// ---------------------------------------------------------------------------

/// Why a requested subtitle track cannot be used.
#[derive(Clone, Copy, Debug, PartialEq, Eq, Structural)]
pub enum SubtitleChoiceError {
    /// The track is no longer among the item's candidates.
    Unavailable,
}

impl SubtitleChoiceError {
    /// The message shown to the user.
    pub fn message(&self) -> (r: &'static str)
        ensures
            r@ == "That subtitle track is no longer available"@,
    {
        "That subtitle track is no longer available"
    }
}

/// The outcome of a subtitle choice.
pub struct SubtitleSelection {
    /// The track to load.
    pub candidate: Option<SubtitleCandidate>,
    pub mode: SubtitleSelectionMode,
    /// The user's choice to keep for later polls.
    pub override_candidate_id: Option<String>,
}

/// The published item `after` is `before` with the given subtitle track
/// announced as loading, and nothing else changed.
pub open spec fn subtitle_choice_applied(
    before: NowPlayingState,
    after: NowPlayingState,
    stream_index: Option<u32>,
    id: Option<Seq<char>>,
    mode: SubtitleSelectionMode,
) -> bool {
    &&& after == NowPlayingState {
        subtitle_stream_index: after.subtitle_stream_index,
        subtitle_candidate_id: after.subtitle_candidate_id,
        subtitle_selection_mode: after.subtitle_selection_mode,
        subtitle_loading: after.subtitle_loading,
        ..before
    }
    &&& after.subtitle_stream_index == stream_index
    &&& opt_view(after.subtitle_candidate_id) == id
    &&& after.subtitle_selection_mode == mode
    &&& after.subtitle_loading
}

/// Applies the user's subtitle choice (none: back to automatic choice) for
/// the item `history_id`, whose candidates are given. A requested track
/// that is not listed is refused and nothing changes. Otherwise the track is
/// chosen as by [`subtitle_choice`], the user's choice is kept when it was
/// used, and the published item, when it is this one, announces the track
/// as loading.
pub fn choose_subtitle(
    state: &mut SessionState,
    history_id: &str,
    candidates: &[SubtitleCandidate],
    target_lang: &str,
    requested: Option<&str>,
    server_kind: MediaServerKind,
) -> (r: Result<SubtitleSelection, SubtitleChoiceError>)
    ensures
        ({
            let (k, mode) = subtitle_choice(candidates@, target_lang@, opt_text(requested), server_kind);
            let chosen_id: Option<Seq<char>> = match k {
                Some(k) => Some(candidates@[k].id@),
                None => None,
            };
            let stream_index = match k {
                Some(k) => candidates@[k].stream_index,
                None => None,
            };
            &&& final(state).sessions == old(state).sessions
            &&& final(state).active_session_id == old(state).active_session_id
            &&& if requested is Some && mode != SubtitleSelectionMode::Manual {
                &&& r == Err::<SubtitleSelection, SubtitleChoiceError>(SubtitleChoiceError::Unavailable)
                &&& final(state).now_playing == old(state).now_playing
            } else {
                &&& r is Ok
                &&& r->Ok_0.mode == mode
                &&& match k {
                    Some(k) => r->Ok_0.candidate matches Some(c) && same_candidate(c, candidates@[k]),
                    None => r->Ok_0.candidate is None,
                }
                &&& opt_view(r->Ok_0.override_candidate_id) == (if mode == SubtitleSelectionMode::Manual {
                    chosen_id
                } else {
                    None
                })
                &&& match old(state).now_playing {
                    Some(np) => if np.history_id@ == history_id@ {
                        final(state).now_playing matches Some(after) && subtitle_choice_applied(
                            np,
                            after,
                            stream_index,
                            chosen_id,
                            mode,
                        )
                    } else {
                        final(state).now_playing == old(state).now_playing
                    },
                    None => final(state).now_playing is None,
                }
            }
        }),
{
    let (candidate, mode) = resolve_subtitle_candidate(candidates, target_lang, requested, server_kind);
    let manual = match mode {
        SubtitleSelectionMode::Manual => true,
        _ => false,
    };
    if requested.is_some() && !manual {
        return Err(SubtitleChoiceError::Unavailable);
    }
    let (stream_index, candidate_id): (Option<u32>, Option<String>) = match &candidate {
        Some(c) => (c.stream_index, Some(c.id.clone())),
        None => (None, None),
    };
    let override_candidate_id = if manual {
        clone_opt(&candidate_id)
    } else {
        None
    };
    let current = state.now_playing.take();
    match current {
        Some(mut np) => {
            if str_equal(np.history_id.as_str(), history_id) {
                np.subtitle_stream_index = stream_index;
                np.subtitle_candidate_id = candidate_id;
                np.subtitle_selection_mode = mode;
                np.subtitle_loading = true;
            }
            state.now_playing = Some(np);
        },
        None => {},
    }
    Ok(SubtitleSelection { candidate, mode, override_candidate_id })
}

// ---------------------------------------------------------------------------
// Plex playback notifications
// ---------------------------------------------------------------------------

/// What to do after a Plex playback notification.
pub struct PlexEventOutcome {
    /// Whether to poll the servers to pick up the change.
    pub should_poll: bool,
    /// The history entry whose position to record, and the position.
    pub history_update: Option<(String, i64)>,
}

/// The key of the Plex playback a notification is about (see
/// [`scoped_playback_id`]).
pub open spec fn plex_event_key(client: Seq<char>, rating_key: Seq<char>, playback: Option<Seq<char>>) -> Seq<char> {
    MediaServerKind::Plex.id_text() + "|"@ + client + "|"@ + rating_key + (match playback {
        Some(p) => "|"@ + p,
        None => Seq::empty(),
    })
}

fn summary_index(ss: &Vec<SessionSummary>, id: &str) -> (r: Option<usize>)
    ensures
        match r {
            Some(k) => summary_position_from(ss@, id@, 0) == Some(k as int),
            None => summary_position_from(ss@, id@, 0) is None,
        },
{
    let mut k: usize = 0;
    while k < ss.len()
        invariant
            k <= ss@.len(),
            summary_position_from(ss@, id@, 0) == summary_position_from(ss@, id@, k as int),
        decreases ss.len() - k,
    {
        if str_equal(ss[k].id.as_str(), id) {
            return Some(k);
        }
        k += 1;
    }
    None
}

/// Applies a Plex playback notification (`player_state` is `playing`,
/// `paused`, `stopped` or another word) for the playback of `rating_key` on
/// the player `client_identifier`:
/// - stopped: poll when the playback is the active one or listed;
/// - the active playback, while the published item is this Plex item: take
///   the position (when given) and the pause state (playing or paused), and
///   record the position in its history entry;
/// - the active playback with another published item: poll;
/// - another playback: poll when it is not listed.
pub fn plex_playing_event(
    state: &mut SessionState,
    client_identifier: &str,
    rating_key: &str,
    playback_session_id: Option<&str>,
    view_offset_ms: Option<i64>,
    player_state: &str,
) -> (r: PlexEventOutcome)
    ensures
        ({
            let id = plex_event_key(client_identifier@, rating_key@, opt_text(playback_session_id));
            let known = summary_position_from(old(state).sessions@, id, 0) is Some;
            let active = old(state).active_session_id matches Some(a) && a@ == id;
            let unchanged = final(state).now_playing == old(state).now_playing;
            &&& final(state).sessions == old(state).sessions
            &&& final(state).active_session_id == old(state).active_session_id
            &&& if player_state@ == "stopped"@ {
                r.should_poll == (active || known) && r.history_update is None && unchanged
            } else if active {
                match old(state).now_playing {
                    Some(np) => if np.server_kind == MediaServerKind::Plex && np.item_id@ == rating_key@ {
                        let pos = match view_offset_ms {
                            Some(p) => p,
                            None => np.position_ms,
                        };
                        let paused = if player_state@ == "playing"@ {
                            false
                        } else if player_state@ == "paused"@ {
                            true
                        } else {
                            np.is_paused
                        };
                        &&& final(state).now_playing == Some(
                            NowPlayingState { position_ms: pos, is_paused: paused, ..np },
                        )
                        &&& !r.should_poll
                        &&& r.history_update matches Some(h) && h.0@ == np.history_id@ && h.1 == pos
                    } else {
                        r.should_poll && r.history_update is None && unchanged
                    },
                    None => r.should_poll && r.history_update is None && unchanged,
                }
            } else {
                r.should_poll == !known && r.history_update is None && unchanged
            }
        }),
{
    let id = scoped_playback_id(MediaServerKind::Plex, client_identifier, rating_key, playback_session_id);
    let known = summary_index(&state.sessions, id.as_str()).is_some();
    let active = match &state.active_session_id {
        Some(a) => str_equal(a.as_str(), id.as_str()),
        None => false,
    };
    if str_equal(player_state, "stopped") {
        return PlexEventOutcome { should_poll: active || known, history_update: None };
    }
    if !active {
        return PlexEventOutcome { should_poll: !known, history_update: None };
    }
    let current = state.now_playing.take();
    match current {
        Some(mut np) => {
            if np.server_kind == MediaServerKind::Plex && str_equal(np.item_id.as_str(), rating_key) {
                match view_offset_ms {
                    Some(p) => {
                        np.position_ms = p;
                    },
                    None => {},
                }
                if str_equal(player_state, "playing") {
                    np.is_paused = false;
                } else if str_equal(player_state, "paused") {
                    np.is_paused = true;
                }
                let update = (np.history_id.clone(), np.position_ms);
                state.now_playing = Some(np);
                PlexEventOutcome { should_poll: false, history_update: Some(update) }
            } else {
                state.now_playing = Some(np);
                PlexEventOutcome { should_poll: true, history_update: None }
            }
        },
        None => PlexEventOutcome { should_poll: true, history_update: None },
    }
}

// ---------------------------------------------------------------------------
// Laws
// ---------------------------------------------------------------------------



/// The reverse of an order.
pub open spec fn reversed(o: Ordering) -> Ordering {
    match o {
        Ordering::Less => Ordering::Greater,
        Ordering::Equal => Ordering::Equal,
        Ordering::Greater => Ordering::Less,
    }
}

/// Comparing two sessions the other way round gives the reverse order, so
/// the priority order is consistent for sorting.
pub proof fn lemma_auto_priority_antisymmetric(left: Session, right: Session, target: Seq<char>)
    ensures
        auto_priority(right, left, target) == reversed(auto_priority(left, right, target)),
{
    lemma_text_less_asymmetric(left.id@, right.id@);
}

/// Whether `a` does not come after `b` in the priority order.
pub open spec fn priority_le(a: Session, b: Session, target: Seq<char>) -> bool {
    auto_priority(a, b, target) != Ordering::Greater
}

/// The priority order is transitive.
pub proof fn lemma_auto_priority_transitive(a: Session, b: Session, c: Session, target: Seq<char>)
    requires
        priority_le(a, b, target),
        priority_le(b, c, target),
    ensures
        priority_le(a, c, target),
{
    lemma_text_less_asymmetric(a.id@, b.id@);
    lemma_text_less_asymmetric(b.id@, c.id@);
    lemma_text_less_asymmetric(a.id@, c.id@);
    if text_less(a.id@, b.id@) && text_less(b.id@, c.id@) {
        lemma_text_less_transitive(a.id@, b.id@, c.id@);
    }
    if text_less(c.id@, a.id@) && text_less(a.id@, b.id@) {
        lemma_text_less_transitive(c.id@, a.id@, b.id@);
    }
    if text_less(b.id@, c.id@) && text_less(c.id@, a.id@) {
        lemma_text_less_transitive(b.id@, c.id@, a.id@);
    }
}

/// A subtitle candidate chosen by the user is used, as a manual choice,
/// whenever it is still listed, whatever the server and language.
pub proof fn lemma_listed_user_choice_wins(
    cs: Seq<SubtitleCandidate>,
    target: Seq<char>,
    id: Seq<char>,
    kind: MediaServerKind,
    k: int,
)
    requires
        0 <= k < cs.len(),
        cs[k].id@ == id,
    ensures
        subtitle_choice(cs, target, Some(id), kind).1 == SubtitleSelectionMode::Manual,
        subtitle_choice(cs, target, Some(id), kind).0 matches Some(j) && 0 <= j < cs.len() && cs[j].id@
            == id,
{
    lemma_first_with_id_finds(cs, id, 0, k);
}

proof fn lemma_first_with_id_finds(cs: Seq<SubtitleCandidate>, id: Seq<char>, from: int, k: int)
    requires
        0 <= from <= k < cs.len(),
        cs[k].id@ == id,
    ensures
        first_with_id(cs, id, from) matches Some(j) && from <= j <= k && cs[j].id@ == id,
    decreases k - from,
{
    if cs[from].id@ != id {
        lemma_first_with_id_finds(cs, id, from + 1, k);
    }
}

/// An audio track chosen by the user is used, as a manual choice, whenever
/// the item has it.
pub proof fn lemma_listed_audio_choice_wins(tracks: Seq<AudioTrack>, target: Seq<char>, index: u32, k: int)
    requires
        0 <= k < tracks.len(),
        tracks[k].index == index,
    ensures
        audio_choice(tracks, target, Some(index)) == (Some(index), AudioTrackResolution::Manual),
{
}

/// History IDs of different items on one server differ.
pub proof fn lemma_history_ids_distinct(kind: MediaServerKind, a: Seq<char>, b: Seq<char>)
    requires
        a != b,
    ensures
        kind.id_text() + "|"@ + a != kind.id_text() + "|"@ + b,
{
    let p = kind.id_text() + "|"@;
    if p + a == p + b {
        assert((p + a).skip(p.len() as int) =~= a);
        assert((p + b).skip(p.len() as int) =~= b);
    }
}

/// A session stays visible at any earlier time at which it is visible later:
/// visibility only runs out.
pub proof fn lemma_visibility_runs_out(kind: MediaServerKind, s: Session, earlier: i64, later: i64)
    requires
        earlier <= later,
        visible_at(kind, s, later),
    ensures
        visible_at(kind, s, earlier),
{
}

/// Whether a subtitle candidate can serve as the native-language track shown
/// beside the target subtitles: it is not the loaded target candidate, and
/// its language names the native language.
pub open spec fn native_candidate(c: SubtitleCandidate, target_id: Option<Seq<char>>, native: Seq<char>) -> bool {
    &&& target_id != Some(c.id@)
    &&& language_matches(opt_view(c.language), native)
}

/// The positions, among the first `n` candidates, of those that can serve
/// as the native-language track, in order.
pub open spec fn native_positions(
    cs: Seq<SubtitleCandidate>,
    target_id: Option<Seq<char>>,
    native: Seq<char>,
    n: int,
) -> Seq<usize>
    decreases n,
{
    if n <= 0 {
        Seq::empty()
    } else if native_candidate(cs[n - 1], target_id, native) {
        native_positions(cs, target_id, native, n - 1).push((n - 1) as usize)
    } else {
        native_positions(cs, target_id, native, n - 1)
    }
}

/// The positions of the candidates that can serve as the native-language
/// track (see [`native_candidate`]), in order. One of them is loaded beside
/// the target subtitles: the only one, or of several the one whose lines
/// best align with the target track.
pub fn native_subtitle_candidates(
    candidates: &Vec<SubtitleCandidate>,
    target_candidate_id: Option<&str>,
    native_lang: &str,
) -> (r: Vec<usize>)
    ensures
        r@ == native_positions(
            candidates@,
            match target_candidate_id {
                Some(t) => Some(t@),
                None => None,
            },
            native_lang@,
            candidates@.len() as int,
        ),
{
    let ghost target = match target_candidate_id {
        Some(t) => Some(t@),
        None => None,
    };
    let mut r: Vec<usize> = Vec::new();
    let mut k: usize = 0;
    while k < candidates.len()
        invariant
            k <= candidates@.len(),
            target == match target_candidate_id {
                Some(t) => Some(t@),
                None => None,
            },
            r@ == native_positions(candidates@, target, native_lang@, k as int),
        decreases candidates.len() - k,
    {
        let c = &candidates[k];
        let is_target = match target_candidate_id {
            Some(t) => str_equal(t, c.id.as_str()),
            None => false,
        };
        let language = match &c.language {
            Some(l) => Some(l.as_str()),
            None => None,
        };
        if !is_target && language_matches_target(language, native_lang) {
            r.push(k);
        }
        k += 1;
    }
    r
}

} // verus!

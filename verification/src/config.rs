//! Application settings: media servers, Anki, mining and Tadoku, with the
//! path mapping from media-server paths to local paths.
use vstd::prelude::*;
use crate::text::{
    chars_of, char_utf8_len, char_utf8_len_exec, lower_chars, lower_seq, owned, slice_vec, str_equal,
    string_of, trim, trim_chars, utf8_len, seq_equal, starts_with_chars, has_prefix,
};

verus! {

// ---------------------------------------------------------------------------
// Media server kinds
// ---------------------------------------------------------------------------

/// The kinds of media server Nagare follows.
#[derive(Clone, Copy, Debug, PartialEq, Eq, Structural, Hash, PartialOrd, Ord)]
pub enum MediaServerKind {
    Emby,
    Jellyfin,
    Plex,
    Audiobookshelf,
}

impl MediaServerKind {
    /// The lower-case identifier of the kind.
    pub open spec fn id_text(self) -> Seq<char> {
        match self {
            MediaServerKind::Emby => "emby"@,
            MediaServerKind::Jellyfin => "jellyfin"@,
            MediaServerKind::Plex => "plex"@,
            MediaServerKind::Audiobookshelf => "audiobookshelf"@,
        }
    }

    /// The name shown to users.
    pub open spec fn display_text(self) -> Seq<char> {
        match self {
            MediaServerKind::Emby => "Emby"@,
            MediaServerKind::Jellyfin => "Jellyfin"@,
            MediaServerKind::Plex => "Plex"@,
            MediaServerKind::Audiobookshelf => "AudioBookShelf"@,
        }
    }

    /// The kind whose identifier is `value`, if any.
    pub open spec fn from_id_text(value: Seq<char>) -> Option<MediaServerKind> {
        if value == "emby"@ {
            Some(MediaServerKind::Emby)
        } else if value == "jellyfin"@ {
            Some(MediaServerKind::Jellyfin)
        } else if value == "plex"@ {
            Some(MediaServerKind::Plex)
        } else if value == "audiobookshelf"@ {
            Some(MediaServerKind::Audiobookshelf)
        } else {
            None
        }
    }

    pub fn as_str(&self) -> (r: &'static str)
        ensures
            r@ == self.id_text(),
    {
        match self {
            MediaServerKind::Emby => "emby",
            MediaServerKind::Jellyfin => "jellyfin",
            MediaServerKind::Plex => "plex",
            MediaServerKind::Audiobookshelf => "audiobookshelf",
        }
    }

    pub fn display_name(&self) -> (r: &'static str)
        ensures
            r@ == self.display_text(),
    {
        match self {
            MediaServerKind::Emby => "Emby",
            MediaServerKind::Jellyfin => "Jellyfin",
            MediaServerKind::Plex => "Plex",
            MediaServerKind::Audiobookshelf => "AudioBookShelf",
        }
    }

    /// The kind named by an identifier (exact, lower case).
    pub fn parse(value: &str) -> (r: Option<MediaServerKind>)
        ensures
            r == MediaServerKind::from_id_text(value@),
    {
        if str_equal(value, "emby") {
            Some(MediaServerKind::Emby)
        } else if str_equal(value, "jellyfin") {
            Some(MediaServerKind::Jellyfin)
        } else if str_equal(value, "plex") {
            Some(MediaServerKind::Plex)
        } else if str_equal(value, "audiobookshelf") {
            Some(MediaServerKind::Audiobookshelf)
        } else {
            None
        }
    }
}

/// Reading back the identifier of a kind gives the kind.
pub proof fn lemma_kind_id_round_trip(kind: MediaServerKind)
    ensures
        MediaServerKind::from_id_text(kind.id_text()) == Some(kind),
{
    reveal_strlit("emby");
    reveal_strlit("jellyfin");
    reveal_strlit("plex");
    reveal_strlit("audiobookshelf");
    assert("plex"@[0] != "emby"@[0]);
    assert("jellyfin"@.len() != "emby"@.len());
    assert("audiobookshelf"@.len() != "emby"@.len());
    assert("audiobookshelf"@.len() != "jellyfin"@.len());
    assert("audiobookshelf"@.len() != "plex"@.len());
    assert("jellyfin"@.len() != "plex"@.len());
}

// ---------------------------------------------------------------------------
// Media encodings
// ---------------------------------------------------------------------------

/// Audio codecs for sentence audio.
#[derive(Clone, Copy, Debug, PartialEq, Eq, Structural)]
pub enum AudioCodec {
    Mp3,
    Aac,
    Opus,
}

impl AudioCodec {
    pub fn as_str(self) -> (r: &'static str)
        ensures
            r@ == (match self {
                AudioCodec::Mp3 => "mp3"@,
                AudioCodec::Aac => "aac"@,
                AudioCodec::Opus => "opus"@,
            }),
    {
        match self {
            AudioCodec::Mp3 => "mp3",
            AudioCodec::Aac => "aac",
            AudioCodec::Opus => "opus",
        }
    }

    pub fn extension(self) -> (r: &'static str)
        ensures
            r@ == (match self {
                AudioCodec::Mp3 => "mp3"@,
                AudioCodec::Aac => "m4a"@,
                AudioCodec::Opus => "opus"@,
            }),
    {
        match self {
            AudioCodec::Mp3 => "mp3",
            AudioCodec::Aac => "m4a",
            AudioCodec::Opus => "opus",
        }
    }

    pub fn mime_type(self) -> (r: &'static str)
        ensures
            r@ == (match self {
                AudioCodec::Mp3 => "audio/mpeg"@,
                AudioCodec::Aac => "audio/mp4"@,
                AudioCodec::Opus => "audio/ogg; codecs=opus"@,
            }),
    {
        match self {
            AudioCodec::Mp3 => "audio/mpeg",
            AudioCodec::Aac => "audio/mp4",
            AudioCodec::Opus => "audio/ogg; codecs=opus",
        }
    }

    /// The ffmpeg encoder arguments for the codec.
    pub open spec fn args_text(self) -> Seq<Seq<char>> {
        match self {
            AudioCodec::Mp3 => seq!["-acodec"@, "libmp3lame"@, "-b:a"@, "96k"@, "-ac"@, "1"@],
            AudioCodec::Aac => seq![
                "-acodec"@,
                "aac"@,
                "-b:a"@,
                "96k"@,
                "-ac"@,
                "1"@,
                "-movflags"@,
                "+faststart"@,
            ],
            AudioCodec::Opus => seq!["-acodec"@, "libopus"@, "-b:a"@, "64k"@, "-ac"@, "1"@],
        }
    }

    /// The ffmpeg encoder arguments for the codec (see [`AudioCodec::args_text`]).
    pub fn ffmpeg_args(self) -> (r: Vec<&'static str>)
        ensures
            r@.map_values(|a: &str| a@) == self.args_text(),
    {
        let mut r: Vec<&'static str> = Vec::new();
        r.push("-acodec");
        match self {
            AudioCodec::Mp3 => {
                r.push("libmp3lame");
                r.push("-b:a");
                r.push("96k");
            },
            AudioCodec::Aac => {
                r.push("aac");
                r.push("-b:a");
                r.push("96k");
            },
            AudioCodec::Opus => {
                r.push("libopus");
                r.push("-b:a");
                r.push("64k");
            },
        }
        r.push("-ac");
        r.push("1");
        if self == AudioCodec::Aac {
            r.push("-movflags");
            r.push("+faststart");
        }
        assert(r@.map_values(|a: &str| a@) =~= (match self {
            AudioCodec::Mp3 => seq!["-acodec"@, "libmp3lame"@, "-b:a"@, "96k"@, "-ac"@, "1"@],
            AudioCodec::Aac => seq![
                "-acodec"@,
                "aac"@,
                "-b:a"@,
                "96k"@,
                "-ac"@,
                "1"@,
                "-movflags"@,
                "+faststart"@,
            ],
            AudioCodec::Opus => seq!["-acodec"@, "libopus"@, "-b:a"@, "64k"@, "-ac"@, "1"@],
        }));
        r
    }
}

/// Encoders for animated AVIF screenshots.
#[derive(Clone, Copy, Debug, PartialEq, Eq, Structural)]
pub enum AnimatedScreenshotEncoder {
    Libsvtav1,
    LibaomAv1,
}

impl AnimatedScreenshotEncoder {
    /// The ffmpeg name of the encoder.
    pub open spec fn name_text(self) -> Seq<char> {
        match self {
            AnimatedScreenshotEncoder::Libsvtav1 => "libsvtav1"@,
            AnimatedScreenshotEncoder::LibaomAv1 => "libaom-av1"@,
        }
    }

    pub fn as_str(self) -> (r: &'static str)
        ensures
            r@ == self.name_text(),
    {
        match self {
            AnimatedScreenshotEncoder::Libsvtav1 => "libsvtav1",
            AnimatedScreenshotEncoder::LibaomAv1 => "libaom-av1",
        }
    }

    /// The other encoder, tried when this one is unavailable.
    pub fn fallback(self) -> (r: Self)
        ensures
            r != self,
    {
        match self {
            AnimatedScreenshotEncoder::Libsvtav1 => AnimatedScreenshotEncoder::LibaomAv1,
            AnimatedScreenshotEncoder::LibaomAv1 => AnimatedScreenshotEncoder::Libsvtav1,
        }
    }
}

/// Formats for still screenshots.
#[derive(Clone, Copy, Debug, PartialEq, Eq, Structural)]
pub enum StaticScreenshotFormat {
    Webp,
    Jpg,
    Png,
}

impl StaticScreenshotFormat {
    pub open spec fn name_text(self) -> Seq<char> {
        match self {
            StaticScreenshotFormat::Webp => "webp"@,
            StaticScreenshotFormat::Jpg => "jpg"@,
            StaticScreenshotFormat::Png => "png"@,
        }
    }

    pub fn as_str(self) -> (r: &'static str)
        ensures
            r@ == self.name_text(),
    {
        match self {
            StaticScreenshotFormat::Webp => "webp",
            StaticScreenshotFormat::Jpg => "jpg",
            StaticScreenshotFormat::Png => "png",
        }
    }

    /// The file extension, which is the format's name.
    pub fn extension(self) -> (r: &'static str)
        ensures
            r@ == self.name_text(),
    {
        self.as_str()
    }

    pub fn mime_type(self) -> (r: &'static str)
        ensures
            r@ == (match self {
                StaticScreenshotFormat::Webp => "image/webp"@,
                StaticScreenshotFormat::Jpg => "image/jpeg"@,
                StaticScreenshotFormat::Png => "image/png"@,
            }),
    {
        match self {
            StaticScreenshotFormat::Webp => "image/webp",
            StaticScreenshotFormat::Jpg => "image/jpeg",
            StaticScreenshotFormat::Png => "image/png",
        }
    }
}

/// How media files are read: through the server's API, from disk, or
/// from disk when the mapped file exists and through the API otherwise.
#[derive(Clone, Copy, Debug, PartialEq, Eq, Structural)]
pub enum MediaAccessMode {
    Api,
    Disk,
    Auto,
}

// ---------------------------------------------------------------------------
// Settings
// ---------------------------------------------------------------------------

/// An Emby server.
pub struct EmbyConfig {
    pub enabled: bool,
    pub url: String,
    pub api_key: String,
    /// User IDs to monitor. Empty means all users on the server.
    pub users: Vec<String>,
}

/// A Jellyfin server.
pub struct JellyfinConfig {
    pub enabled: bool,
    pub url: String,
    pub api_key: String,
    /// User IDs to monitor. Empty means all users on the server.
    pub users: Vec<String>,
}

/// A Plex server.
pub struct PlexConfig {
    pub enabled: bool,
    pub url: String,
    pub token: String,
    /// Account IDs to monitor. Empty means all users on the server.
    pub users: Vec<String>,
}

/// The Anki note fields Nagare fills.
pub struct AnkiFieldMapping {
    pub sentence: String,
    pub sentence_audio: String,
    pub picture: String,
    /// Optional field for the show or source name.
    pub source_name: Option<String>,
    /// Optional field for the native-language translation of the sentence.
    pub sentence_translation: Option<String>,
}

/// AnkiConnect and card-selection settings.
pub struct AnkiConfig {
    pub url: String,
    pub fields: AnkiFieldMapping,
    /// Tags added to every enriched card.
    pub add_tags: Vec<String>,
    /// Whether a per-series tag derived from the show title is added.
    pub series_tag_enabled: bool,
    /// Parent tag for the per-series tag; empty for a top-level tag.
    pub series_tag_parent: String,
    /// Cards with any of these tags are ignored.
    pub ignore_tags: Vec<String>,
    /// When not empty, only cards with one of these tags are processed.
    pub require_tags: Vec<String>,
    pub skip_if_audio_exists: bool,
    pub skip_if_picture_exists: bool,
    /// When not empty, only notes of these types are processed.
    pub note_types: Vec<String>,
    /// AnkiConnect polling period in milliseconds.
    pub polling_rate_ms: u64,
}

/// A prefix rewrite from a media-server path to a local path.
pub struct PathMapping {
    pub from: String,
    pub to: String,
}

/// Sentence audio and screenshot settings.
pub struct MiningConfig {
    pub audio_start_offset_ms: i64,
    pub audio_end_offset_ms: i64,
    pub audio_codec: AudioCodec,
    pub generate_avif: bool,
    pub animated_screenshot_encoder: AnimatedScreenshotEncoder,
    /// Upper bound on the animated screenshot width in pixels.
    pub avif_max_width: u32,
    /// Upper bound on the animated screenshot frame rate.
    pub avif_max_fps: u32,
    pub static_screenshot_format: StaticScreenshotFormat,
    /// Legacy setting, read from old files and otherwise ignored.
    pub auto_approve: bool,
}

/// Tadoku export settings.
pub struct TadokuConfig {
    pub enabled: bool,
    /// Tadoku username or email.
    pub username: String,
    pub password: String,
    /// Browser session cookie obtained by logging in.
    pub session_cookie: String,
    /// ISO 639-3 code of the logged language.
    pub language_code: String,
    /// Hour of day (America/New_York) of the daily export.
    pub export_hour_eastern: u32,
    pub api_url: String,
    pub session_url: String,
}

/// All settings.
pub struct Config {
    pub listen_address: String,
    pub emby: Option<EmbyConfig>,
    pub jellyfin: Option<JellyfinConfig>,
    pub plex: Option<PlexConfig>,
    /// The language being learned (ISO 639-3).
    pub target_language: String,
    /// The language of the secondary subtitle track (ISO 639-3).
    pub native_language: String,
    pub anki: AnkiConfig,
    pub path_mappings: Vec<PathMapping>,
    pub media_access_mode: MediaAccessMode,
    pub mining: MiningConfig,
    pub tadoku: TadokuConfig,
}

// ---------------------------------------------------------------------------
// Defaults
// ---------------------------------------------------------------------------

fn default_listen_address() -> (r: String)
    ensures
        r@ == "0.0.0.0:9470"@,
{
    owned("0.0.0.0:9470")
}

fn default_target_language() -> (r: String)
    ensures
        r@ == "jpn"@,
{
    owned("jpn")
}

fn default_native_language() -> (r: String)
    ensures
        r@ == "eng"@,
{
    owned("eng")
}

fn default_ankiconnect_url() -> (r: String)
    ensures
        r@ == "http://localhost:8765"@,
{
    owned("http://localhost:8765")
}

fn default_sentence_field() -> (r: String)
    ensures
        r@ == "Sentence"@,
{
    owned("Sentence")
}

fn default_sentence_audio_field() -> (r: String)
    ensures
        r@ == "SentenceAudio"@,
{
    owned("SentenceAudio")
}

fn default_picture_field() -> (r: String)
    ensures
        r@ == "Picture"@,
{
    owned("Picture")
}

fn default_media_access_mode() -> (r: MediaAccessMode)
    ensures
        r == MediaAccessMode::Auto,
{
    MediaAccessMode::Auto
}

fn default_polling_rate_ms() -> (r: u64)
    ensures
        r == 1_000,
{
    1_000
}

fn default_audio_start_offset_ms() -> (r: i64)
    ensures
        r == 100,
{
    100
}

fn default_audio_end_offset_ms() -> (r: i64)
    ensures
        r == 500,
{
    500
}

fn default_audio_codec() -> (r: AudioCodec)
    ensures
        r == AudioCodec::Mp3,
{
    AudioCodec::Mp3
}

fn default_animated_screenshot_encoder() -> (r: AnimatedScreenshotEncoder)
    ensures
        r == AnimatedScreenshotEncoder::Libsvtav1,
{
    AnimatedScreenshotEncoder::Libsvtav1
}

fn default_avif_max_width() -> (r: u32)
    ensures
        r == 480,
{
    480
}

fn default_avif_max_fps() -> (r: u32)
    ensures
        r == 10,
{
    10
}

fn default_static_screenshot_format() -> (r: StaticScreenshotFormat)
    ensures
        r == StaticScreenshotFormat::Webp,
{
    StaticScreenshotFormat::Webp
}

fn default_true() -> (r: bool)
    ensures
        r,
{
    true
}

fn default_tadoku_export_hour() -> (r: u32)
    ensures
        r == 20,
{
    20
}

/// The Tadoku immersion API that the deployed web app uses.
pub open spec fn tadoku_api_url_default() -> Seq<char> {
    "https://tadoku.app/api/internal/immersion"@
}

/// The Tadoku session endpoint.
pub open spec fn tadoku_session_url_default() -> Seq<char> {
    "https://account.tadoku.app/kratos/sessions/whoami"@
}

fn default_tadoku_api_url() -> (r: String)
    ensures
        r@ == tadoku_api_url_default(),
{
    owned("https://tadoku.app/api/internal/immersion")
}

fn default_tadoku_session_url() -> (r: String)
    ensures
        r@ == tadoku_session_url_default(),
{
    owned("https://account.tadoku.app/kratos/sessions/whoami")
}

impl Default for AnkiFieldMapping {
    fn default() -> (r: Self)
        ensures
            r.sentence@ == "Sentence"@,
            r.sentence_audio@ == "SentenceAudio"@,
            r.picture@ == "Picture"@,
            r.source_name is None,
            r.sentence_translation is None,
    {
        AnkiFieldMapping {
            sentence: default_sentence_field(),
            sentence_audio: default_sentence_audio_field(),
            picture: default_picture_field(),
            source_name: None,
            sentence_translation: None,
        }
    }
}

impl Default for AnkiConfig {
    fn default() -> (r: Self)
        ensures
            r.url@ == "http://localhost:8765"@,
            r.fields.sentence@ == "Sentence"@,
            r.fields.sentence_audio@ == "SentenceAudio"@,
            r.fields.picture@ == "Picture"@,
            r.fields.source_name is None,
            r.fields.sentence_translation is None,
            r.add_tags@.len() == 0,
            !r.series_tag_enabled,
            r.series_tag_parent@.len() == 0,
            r.ignore_tags@.len() == 0,
            r.require_tags@.len() == 0,
            r.skip_if_audio_exists,
            r.skip_if_picture_exists,
            r.note_types@.len() == 0,
            r.polling_rate_ms == 1_000,
    {
        AnkiConfig {
            url: default_ankiconnect_url(),
            fields: AnkiFieldMapping::default(),
            add_tags: Vec::new(),
            series_tag_enabled: false,
            series_tag_parent: String::new(),
            ignore_tags: Vec::new(),
            require_tags: Vec::new(),
            skip_if_audio_exists: default_true(),
            skip_if_picture_exists: default_true(),
            note_types: Vec::new(),
            polling_rate_ms: default_polling_rate_ms(),
        }
    }
}

impl Default for MiningConfig {
    fn default() -> (r: Self)
        ensures
            r.audio_start_offset_ms == 100,
            r.audio_end_offset_ms == 500,
            r.audio_codec == AudioCodec::Mp3,
            r.generate_avif,
            r.animated_screenshot_encoder == AnimatedScreenshotEncoder::Libsvtav1,
            r.avif_max_width == 480,
            r.avif_max_fps == 10,
            r.static_screenshot_format == StaticScreenshotFormat::Webp,
            !r.auto_approve,
    {
        MiningConfig {
            audio_start_offset_ms: default_audio_start_offset_ms(),
            audio_end_offset_ms: default_audio_end_offset_ms(),
            audio_codec: default_audio_codec(),
            generate_avif: default_true(),
            animated_screenshot_encoder: default_animated_screenshot_encoder(),
            avif_max_width: default_avif_max_width(),
            avif_max_fps: default_avif_max_fps(),
            static_screenshot_format: default_static_screenshot_format(),
            auto_approve: false,
        }
    }
}

impl Default for TadokuConfig {
    fn default() -> (r: Self)
        ensures
            !r.enabled,
            r.username@.len() == 0,
            r.password@.len() == 0,
            r.session_cookie@.len() == 0,
            r.language_code@ == "jpn"@,
            r.export_hour_eastern == 20,
            r.api_url@ == tadoku_api_url_default(),
            r.session_url@ == tadoku_session_url_default(),
    {
        TadokuConfig {
            enabled: false,
            username: String::new(),
            password: String::new(),
            session_cookie: String::new(),
            language_code: default_target_language(),
            export_hour_eastern: default_tadoku_export_hour(),
            api_url: default_tadoku_api_url(),
            session_url: default_tadoku_session_url(),
        }
    }
}

impl Default for Config {
    fn default() -> (r: Self)
        ensures
            r.listen_address@ == "0.0.0.0:9470"@,
            r.emby is None,
            r.jellyfin is None,
            r.plex is None,
            r.target_language@ == "jpn"@,
            r.native_language@ == "eng"@,
            r.anki.url@ == "http://localhost:8765"@,
            r.path_mappings@.len() == 0,
            r.media_access_mode == MediaAccessMode::Auto,
            r.mining.audio_codec == AudioCodec::Mp3,
            !r.tadoku.enabled,
            r.tadoku.api_url@ == tadoku_api_url_default(),
    {
        Config {
            listen_address: default_listen_address(),
            emby: None,
            jellyfin: None,
            plex: None,
            target_language: default_target_language(),
            native_language: default_native_language(),
            anki: AnkiConfig::default(),
            path_mappings: Vec::new(),
            media_access_mode: default_media_access_mode(),
            mining: MiningConfig::default(),
            tadoku: TadokuConfig::default(),
        }
    }
}

// ---------------------------------------------------------------------------
// Path mapping
// ---------------------------------------------------------------------------

/// Backslashes turned into slashes.
pub open spec fn slashes_normalized(s: Seq<char>) -> Seq<char> {
    s.map_values(|c: char| if c == '\\' { '/' } else { c })
}

/// Without trailing `/` characters.
pub open spec fn without_trailing_slashes(s: Seq<char>) -> Seq<char>
    decreases s.len(),
{
    if s.len() > 0 && s.last() == '/' {
        without_trailing_slashes(s.drop_last())
    } else {
        s
    }
}

/// Without leading `/` and `\` characters.
pub open spec fn without_leading_separators(s: Seq<char>) -> Seq<char>
    decreases s.len(),
{
    if s.len() > 0 && (s[0] == '/' || s[0] == '\\') {
        without_leading_separators(s.drop_first())
    } else {
        s
    }
}

/// The form in which mapping prefixes are compared: slashes only, no
/// trailing slash, ASCII lower case.
pub open spec fn mapping_key(s: Seq<char>) -> Seq<char> {
    lower_seq(without_trailing_slashes(slashes_normalized(s)))
}

/// Whether a mapping whose key is `from_key` covers a path whose key is
/// `path_key`: the keys are equal, or the path continues the prefix with `/`.
pub open spec fn mapping_applies(path_key: Seq<char>, from_key: Seq<char>) -> bool {
    ||| path_key == from_key
    ||| (has_prefix(path_key, from_key) && path_key.len() > from_key.len() && path_key[from_key.len() as int] == '/')
}

/// `str::get(n..)`: what follows the first `n` bytes of the UTF-8 encoding,
/// when `n` falls on a character boundary.
pub open spec fn suffix_after_bytes(s: Seq<char>, n: int) -> Option<Seq<char>>
    decreases s.len(),
{
    if n == 0 {
        Some(s)
    } else if n < 0 || s.len() == 0 || n < char_utf8_len(s[0]) {
        None
    } else {
        suffix_after_bytes(s.drop_first(), n - char_utf8_len(s[0]))
    }
}

/// The part of `path` after a mapping's prefix: after as many bytes as the
/// prefix as written has, else as its key has, else nothing.
pub open spec fn mapping_remainder(path: Seq<char>, from: Seq<char>) -> Seq<char> {
    match suffix_after_bytes(path, utf8_len(from) as int) {
        Some(r) => r,
        None => match suffix_after_bytes(path, utf8_len(mapping_key(from)) as int) {
            Some(r) => r,
            None => Seq::empty(),
        },
    }
}

/// `Path::join` of a relative path onto `base`, with `/` separators.
pub open spec fn path_join(base: Seq<char>, rel: Seq<char>) -> Seq<char> {
    if base.len() > 0 && base.last() != '/' {
        base + seq!['/'] + rel
    } else {
        base + rel
    }
}

/// The local path for `path` under the mappings from `i` on: the first
/// mapping that covers it rewrites it; with none, the path is kept.
pub open spec fn mapped_path_from(ms: Seq<PathMapping>, path: Seq<char>, i: int) -> Seq<char>
    decreases ms.len() - i,
{
    if i < 0 || i >= ms.len() {
        path
    } else if mapping_applies(mapping_key(path), mapping_key(ms[i].from@)) {
        path_join(ms[i].to@, without_leading_separators(mapping_remainder(path, ms[i].from@)))
    } else {
        mapped_path_from(ms, path, i + 1)
    }
}

/// The UTF-8 byte length, counted in a type wide enough for any slice.
fn utf8_len_wide(s: &[char]) -> (n: u128)
    ensures
        n == utf8_len(s@),
{
    let mut n: u128 = 0;
    let mut i: usize = 0;
    while i < s.len()
        invariant
            i <= s@.len(),
            n == utf8_len(s@.take(i as int)),
            n <= 4 * i,
        decreases s.len() - i,
    {
        assert(s@.take(i + 1).drop_last() =~= s@.take(i as int));
        n = n + char_utf8_len_exec(s[i]) as u128;
        i += 1;
    }
    assert(s@.take(s@.len() as int) =~= s@);
    n
}

fn suffix_after_bytes_exec(s: &[char], n: u128) -> (r: Option<Vec<char>>)
    ensures
        match r {
            Some(v) => suffix_after_bytes(s@, n as int) == Some(v@),
            None => suffix_after_bytes(s@, n as int) is None,
        },
{
    let mut i: usize = 0;
    let mut left: u128 = n;
    assert(s@.skip(0) =~= s@);
    while i < s.len() && left > 0
        invariant
            i <= s@.len(),
            suffix_after_bytes(s@, n as int) == suffix_after_bytes(s@.skip(i as int), left as int),
        decreases s.len() - i,
    {
        let w = char_utf8_len_exec(s[i]) as u128;
        assert(s@.skip(i as int)[0] == s@[i as int]);
        if left < w {
            return None;
        }
        assert(s@.skip(i as int).drop_first() =~= s@.skip(i + 1));
        left = left - w;
        i += 1;
    }
    if left > 0 {
        return None;
    }
    assert(s@.skip(i as int) =~= s@.subrange(i as int, s@.len() as int));
    Some(slice_vec(s, i, s.len()))
}

fn without_leading_separators_exec(s: &[char]) -> (r: Vec<char>)
    ensures
        r@ == without_leading_separators(s@),
{
    let mut i: usize = 0;
    assert(s@.skip(0) =~= s@);
    while i < s.len() && (s[i] == '/' || s[i] == '\\')
        invariant
            i <= s@.len(),
            without_leading_separators(s@) == without_leading_separators(s@.skip(i as int)),
        decreases s.len() - i,
    {
        assert(s@.skip(i as int).drop_first() =~= s@.skip(i + 1));
        i += 1;
    }
    assert(s@.skip(i as int) =~= s@.subrange(i as int, s@.len() as int));
    slice_vec(s, i, s.len())
}

fn path_join_exec(base: &[char], rel: &[char]) -> (r: Vec<char>)
    ensures
        r@ == path_join(base@, rel@),
{
    let mut r = slice_vec(base, 0, base.len());
    assert(base@.subrange(0, base@.len() as int) =~= base@);
    if base.len() > 0 && base[base.len() - 1] != '/' {
        r.push('/');
    }
    let mut i: usize = 0;
    let ghost start = r@;
    while i < rel.len()
        invariant
            i <= rel@.len(),
            r@ == start + rel@.take(i as int),
        decreases rel.len() - i,
    {
        r.push(rel[i]);
        i += 1;
        assert(r@ =~= start + rel@.take(i as int));
    }
    assert(rel@.take(rel@.len() as int) =~= rel@);
    r
}

/// Whether `key` continues `prefix` with a `/` or equals it.
fn mapping_applies_exec(key: &[char], prefix: &[char]) -> (r: bool)
    ensures
        r == mapping_applies(key@, prefix@),
{
    if seq_equal(key, prefix) {
        return true;
    }
    starts_with_chars(key, prefix) && key.len() > prefix.len() && key[prefix.len()] == '/'
}

// ---------------------------------------------------------------------------
// Server selection
// ---------------------------------------------------------------------------

/// The kinds of the enabled servers, in the order Emby, Jellyfin, Plex.
pub open spec fn enabled_kinds(c: Config) -> Seq<MediaServerKind> {
    let e: Seq<MediaServerKind> = if c.emby is Some && c.emby->0.enabled {
        seq![MediaServerKind::Emby]
    } else {
        Seq::empty()
    };
    let j: Seq<MediaServerKind> = if c.jellyfin is Some && c.jellyfin->0.enabled {
        seq![MediaServerKind::Jellyfin]
    } else {
        Seq::empty()
    };
    let p: Seq<MediaServerKind> = if c.plex is Some && c.plex->0.enabled {
        seq![MediaServerKind::Plex]
    } else {
        Seq::empty()
    };
    e + j + p
}

/// The user allowlist of a server kind, as text (empty when the server is
/// not configured).
pub open spec fn allowed_list(c: Config, kind: MediaServerKind) -> Seq<Seq<char>> {
    match kind {
        MediaServerKind::Emby => match c.emby {
            Some(e) => e.users@.map_values(|u: String| u@),
            None => Seq::empty(),
        },
        MediaServerKind::Jellyfin => match c.jellyfin {
            Some(e) => e.users@.map_values(|u: String| u@),
            None => Seq::empty(),
        },
        MediaServerKind::Plex => match c.plex {
            Some(e) => e.users@.map_values(|u: String| u@),
            None => Seq::empty(),
        },
        MediaServerKind::Audiobookshelf => Seq::empty(),
    }
}

/// The text of an optional string slice.
pub open spec fn opt_text(o: Option<&str>) -> Option<Seq<char>> {
    match o {
        Some(s) => Some(s@),
        None => None,
    }
}

/// Whether a user passes an allowlist: the list is empty, or an entry equals
/// the user's ID or, failing that, the display name.
pub open spec fn user_passes(list: Seq<Seq<char>>, id: Option<Seq<char>>, name: Option<Seq<char>>) -> bool {
    ||| list.len() == 0
    ||| exists|k: int|
        0 <= k < list.len() && (id == Some(#[trigger] list[k]) || name == Some(list[k]))
}

/// Whether the connection settings of two optional Emby entries differ.
pub open spec fn emby_connection_differs(a: Option<EmbyConfig>, b: Option<EmbyConfig>) -> bool {
    match (a, b) {
        (Some(x), Some(y)) => x.url@ != y.url@ || x.api_key@ != y.api_key@ || x.enabled != y.enabled,
        (None, None) => false,
        _ => true,
    }
}

/// Whether the connection settings of two optional Jellyfin entries differ.
pub open spec fn jellyfin_connection_differs(a: Option<JellyfinConfig>, b: Option<JellyfinConfig>) -> bool {
    match (a, b) {
        (Some(x), Some(y)) => x.url@ != y.url@ || x.api_key@ != y.api_key@ || x.enabled != y.enabled,
        (None, None) => false,
        _ => true,
    }
}

/// Whether the connection settings of two optional Plex entries differ.
pub open spec fn plex_connection_differs(a: Option<PlexConfig>, b: Option<PlexConfig>) -> bool {
    match (a, b) {
        (Some(x), Some(y)) => x.url@ != y.url@ || x.token@ != y.token@ || x.enabled != y.enabled,
        (None, None) => false,
        _ => true,
    }
}

/// Whether the server connections of two settings differ.
pub open spec fn connections_differ(a: Config, b: Config) -> bool {
    emby_connection_differs(a.emby, b.emby) || jellyfin_connection_differs(a.jellyfin, b.jellyfin)
        || plex_connection_differs(a.plex, b.plex)
}

/// Comparing server connections is symmetric, and settings never differ
/// from themselves.
pub proof fn lemma_connections_differ_symmetric(a: Config, b: Config)
    ensures
        connections_differ(a, b) == connections_differ(b, a),
        !connections_differ(a, a),
{
}

fn strings_equal(a: &String, b: &String) -> (r: bool)
    ensures
        r == (a@ == b@),
{
    str_equal(a.as_str(), b.as_str())
}

impl Config {
    /// The form in which mapping prefixes are compared.
    fn normalize_mapping_path(value: &str) -> (r: Vec<char>)
        ensures
            r@ == mapping_key(value@),
    {
        let v = chars_of(value);
        let mut slashed: Vec<char> = Vec::new();
        let mut i: usize = 0;
        while i < v.len()
            invariant
                i <= v@.len(),
                slashed@ == slashes_normalized(v@.take(i as int)),
            decreases v.len() - i,
        {
            let c = v[i];
            slashed.push(if c == '\\' { '/' } else { c });
            i += 1;
            assert(slashed@ =~= slashes_normalized(v@.take(i as int)));
        }
        assert(v@.take(v@.len() as int) =~= v@);
        let mut j = slashed.len();
        assert(slashed@.take(j as int) =~= slashed@);
        while j > 0 && slashed[j - 1] == '/'
            invariant
                j <= slashed@.len(),
                without_trailing_slashes(slashed@) == without_trailing_slashes(slashed@.take(j as int)),
            decreases j,
        {
            assert(slashed@.take(j as int).drop_last() =~= slashed@.take(j - 1));
            j -= 1;
        }
        let trimmed = slice_vec(&slashed, 0, j);
        assert(trimmed@ =~= slashed@.take(j as int));
        lower_chars(&trimmed)
    }

    /// The local path of a media-server path under the path mappings: the
    /// first mapping whose prefix covers the path (compared with slashes
    /// only, no trailing slash, ASCII case folded) replaces that prefix;
    /// without one the path is kept.
    pub fn map_path(&self, server_path: &str) -> (r: String)
        ensures
            r@ == mapped_path_from(self.path_mappings@, server_path@, 0),
    {
        let path = chars_of(server_path);
        let key = Config::normalize_mapping_path(server_path);
        let mut i: usize = 0;
        while i < self.path_mappings.len()
            invariant
                i <= self.path_mappings@.len(),
                path@ == server_path@,
                key@ == mapping_key(server_path@),
                mapped_path_from(self.path_mappings@, server_path@, 0) == mapped_path_from(
                    self.path_mappings@,
                    server_path@,
                    i as int,
                ),
            decreases self.path_mappings.len() - i,
        {
            let mapping = &self.path_mappings[i];
            let from_key = Config::normalize_mapping_path(mapping.from.as_str());
            if mapping_applies_exec(&key, &from_key) {
                let from = chars_of(mapping.from.as_str());
                let from_bytes = utf8_len_wide(&from);
                let key_bytes = utf8_len_wide(&from_key);
                let remainder = match suffix_after_bytes_exec(&path, from_bytes) {
                    Some(r) => r,
                    None => match suffix_after_bytes_exec(&path, key_bytes) {
                        Some(r) => r,
                        None => Vec::new(),
                    },
                };
                assert(remainder@ == mapping_remainder(server_path@, mapping.from@));
                let rel = without_leading_separators_exec(&remainder);
                let to = chars_of(mapping.to.as_str());
                let joined = path_join_exec(&to, &rel);
                return string_of(&joined);
            }
            i += 1;
        }
        owned(server_path)
    }

    /// The kinds of the enabled servers, Emby first, then Jellyfin, then Plex.
    pub fn enabled_server_kinds(&self) -> (r: Vec<MediaServerKind>)
        ensures
            r@ == enabled_kinds(*self),
    {
        let mut kinds: Vec<MediaServerKind> = Vec::new();
        let e = match &self.emby {
            Some(c) => c.enabled,
            None => false,
        };
        if e {
            kinds.push(MediaServerKind::Emby);
        }
        let j = match &self.jellyfin {
            Some(c) => c.enabled,
            None => false,
        };
        if j {
            kinds.push(MediaServerKind::Jellyfin);
        }
        let p = match &self.plex {
            Some(c) => c.enabled,
            None => false,
        };
        if p {
            kinds.push(MediaServerKind::Plex);
        }
        assert(kinds@ =~= enabled_kinds(*self));
        kinds
    }

    /// Whether a media server is configured and enabled.
    pub fn has_server(&self) -> (r: bool)
        ensures
            r == (enabled_kinds(*self).len() > 0),
    {
        self.enabled_server_kinds().len() > 0
    }

    /// The user-ID allowlist of a server (empty means every user).
    pub fn allowed_users(&self, kind: MediaServerKind) -> (r: &[String])
        ensures
            r@.map_values(|u: String| u@) == allowed_list(*self, kind),
    {
        let r: &[String] = match kind {
            MediaServerKind::Emby => match &self.emby {
                Some(c) => c.users.as_slice(),
                None => &[],
            },
            MediaServerKind::Jellyfin => match &self.jellyfin {
                Some(c) => c.users.as_slice(),
                None => &[],
            },
            MediaServerKind::Plex => match &self.plex {
                Some(c) => c.users.as_slice(),
                None => &[],
            },
            MediaServerKind::Audiobookshelf => &[],
        };
        assert(r@.map_values(|u: String| u@) =~= allowed_list(*self, kind));
        r
    }

    /// Whether sessions of the user on a server are followed: an empty
    /// allowlist admits every user; otherwise an entry must equal the user ID
    /// or, failing that, the display name.
    pub fn is_user_allowed(&self, kind: MediaServerKind, user_id: Option<&str>, user_name: Option<&str>) -> (r: bool)
        ensures
            r == user_passes(allowed_list(*self, kind), opt_text(user_id), opt_text(user_name)),
    {
        let allowed = self.allowed_users(kind);
        let ghost list = allowed_list(*self, kind);
        if allowed.len() == 0 {
            return true;
        }
        let mut k: usize = 0;
        while k < allowed.len()
            invariant
                k <= allowed@.len(),
                list == allowed@.map_values(|u: String| u@),
                list == allowed_list(*self, kind),
                forall|t: int|
                    0 <= t < k ==> !(opt_text(user_id) == Some(#[trigger] list[t]) || opt_text(
                        user_name,
                    ) == Some(list[t])),
            decreases allowed.len() - k,
        {
            let entry = allowed[k].as_str();
            assert(list[k as int] == entry@);
            let id_match = match user_id {
                Some(id) => str_equal(id, entry),
                None => false,
            };
            let name_match = match user_name {
                Some(name) => str_equal(name, entry),
                None => false,
            };
            if id_match || name_match {
                assert(opt_text(user_id) == Some(list[k as int]) || opt_text(user_name) == Some(
                    list[k as int],
                ));
                return true;
            }
            k += 1;
        }
        false
    }

    /// Whether the URL, key or enabled flag of any server differs from
    /// `other`; other settings, such as the user allowlists, do not count.
    pub fn server_connection_changed(&self, other: &Self) -> (r: bool)
        ensures
            r == connections_differ(*self, *other),
    {
        let emby = match (&self.emby, &other.emby) {
            (Some(a), Some(b)) => !strings_equal(&a.url, &b.url) || !strings_equal(&a.api_key, &b.api_key)
                || a.enabled != b.enabled,
            (None, None) => false,
            _ => true,
        };
        let jellyfin = match (&self.jellyfin, &other.jellyfin) {
            (Some(a), Some(b)) => !strings_equal(&a.url, &b.url) || !strings_equal(&a.api_key, &b.api_key)
                || a.enabled != b.enabled,
            (None, None) => false,
            _ => true,
        };
        let plex = match (&self.plex, &other.plex) {
            (Some(a), Some(b)) => !strings_equal(&a.url, &b.url) || !strings_equal(&a.token, &b.token)
                || a.enabled != b.enabled,
            (None, None) => false,
            _ => true,
        };
        emby || jellyfin || plex
    }
}

// ---------------------------------------------------------------------------
// Tadoku settings
// ---------------------------------------------------------------------------

/// The API URL after normalization: trimmed, trailing slashes dropped, and
/// the empty URL or an obsolete production URL replaced by the current one.
pub open spec fn normalized_api_url(s: Seq<char>) -> Seq<char> {
    let a = without_trailing_slashes(trim(s));
    if a.len() == 0 || a == "https://tadoku.app/api/immersion"@ || a == "https://tadoku.app/api/internal"@ {
        tadoku_api_url_default()
    } else {
        a
    }
}

/// The session URL after normalization: trimmed, the default when blank.
pub open spec fn normalized_session_url(s: Seq<char>) -> Seq<char> {
    if trim(s).len() == 0 {
        tadoku_session_url_default()
    } else {
        trim(s)
    }
}

impl TadokuConfig {
    /// Whether a username (not blank) and a password (not empty) are set.
    pub fn has_credentials(&self) -> (r: bool)
        ensures
            r == (trim(self.username@).len() > 0 && self.password@.len() > 0),
    {
        let user = chars_of(self.username.as_str());
        let t = trim_chars(&user);
        t.len() > 0 && chars_of(self.password.as_str()).len() > 0
    }

    /// Tidies the settings: trims the username and URLs, replaces obsolete
    /// Tadoku API URLs by the current one, lower-cases the language code and
    /// caps the export hour at 23.
    pub fn normalize(&mut self)
        ensures
            final(self).enabled == old(self).enabled,
            final(self).username@ == trim(old(self).username@),
            final(self).password@ == old(self).password@,
            final(self).session_cookie@ == old(self).session_cookie@,
            final(self).api_url@ == normalized_api_url(old(self).api_url@),
            final(self).session_url@ == normalized_session_url(old(self).session_url@),
            final(self).language_code@ == lower_seq(trim(old(self).language_code@)),
            final(self).export_hour_eastern == (if old(self).export_hour_eastern <= 23 {
                old(self).export_hour_eastern
            } else {
                23
            }),
    {
        let user = chars_of(self.username.as_str());
        self.username = string_of(&trim_chars(&user));

        let api = chars_of(self.api_url.as_str());
        let api_trimmed = trim_chars(&api);
        let mut j = api_trimmed.len();
        assert(api_trimmed@.take(j as int) =~= api_trimmed@);
        while j > 0 && api_trimmed[j - 1] == '/'
            invariant
                j <= api_trimmed@.len(),
                without_trailing_slashes(api_trimmed@) == without_trailing_slashes(
                    api_trimmed@.take(j as int),
                ),
            decreases j,
        {
            assert(api_trimmed@.take(j as int).drop_last() =~= api_trimmed@.take(j - 1));
            j -= 1;
        }
        let a = slice_vec(&api_trimmed, 0, j);
        assert(a@ =~= api_trimmed@.take(j as int));
        if a.len() == 0 || seq_equal(&a, &chars_of("https://tadoku.app/api/immersion")) || seq_equal(
            &a,
            &chars_of("https://tadoku.app/api/internal"),
        ) {
            self.api_url = default_tadoku_api_url();
        } else {
            self.api_url = string_of(&a);
        }

        let session = chars_of(self.session_url.as_str());
        let st = trim_chars(&session);
        if st.len() == 0 {
            self.session_url = default_tadoku_session_url();
        } else {
            self.session_url = string_of(&st);
        }

        let lang = chars_of(self.language_code.as_str());
        self.language_code = string_of(&lower_chars(&trim_chars(&lang)));
        if self.export_hour_eastern > 23 {
            self.export_hour_eastern = 23;
        }
    }
}

} // verus!

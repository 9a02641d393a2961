//! Where sentence audio and screenshots are read from, the ffmpeg input
//! options and screenshot formats, and the base64 form of media for Anki.
use vstd::prelude::*;
use base64::Engine;
use crate::config::{AnimatedScreenshotEncoder, AudioCodec, Config, MediaAccessMode, StaticScreenshotFormat};
use crate::text::{
    append, append_str, chars_of, decimal_digits, has_prefix, i64_text, int_text, owned, starts_with_chars,
    string_of, u64_digits, u64_padded, zero_padded,
};

verus! {

/// A generated screenshot.
pub struct GeneratedImage {
    pub path: String,
    pub data: Vec<u8>,
    pub format: StaticScreenshotFormat,
}

/// The extra ffmpeg input options for an HTTP(S) source, which allow the
/// network protocols and reconnection; none for a file.
pub open spec fn http_input_args_text(source: Seq<char>) -> Seq<Seq<char>> {
    if has_prefix(source, "http://"@) || has_prefix(source, "https://"@) {
        seq![
            "-protocol_whitelist"@,
            "file,http,https,tcp,tls"@,
            "-reconnect"@,
            "1"@,
            "-reconnect_streamed"@,
            "1"@,
        ]
    } else {
        Seq::empty()
    }
}

pub fn http_input_args(source: &str) -> (r: Vec<&'static str>)
    ensures
        r@.map_values(|a: &str| a@) == http_input_args_text(source@),
{
    let s = chars_of(source);
    let mut r: Vec<&'static str> = Vec::new();
    if starts_with_chars(&s, &chars_of("http://")) || starts_with_chars(&s, &chars_of("https://")) {
        r.push("-protocol_whitelist");
        r.push("file,http,https,tcp,tls");
        r.push("-reconnect");
        r.push("1");
        r.push("-reconnect_streamed");
        r.push("1");
    }
    assert(r@.map_values(|a: &str| a@) =~= http_input_args_text(source@));
    r
}

/// The screenshot formats to try in turn: the configured one, then the
/// others in the order JPEG, WebP, PNG.
pub open spec fn screenshot_attempts(primary: StaticScreenshotFormat) -> Seq<StaticScreenshotFormat> {
    match primary {
        StaticScreenshotFormat::Jpg => seq![
            StaticScreenshotFormat::Jpg,
            StaticScreenshotFormat::Webp,
            StaticScreenshotFormat::Png,
        ],
        StaticScreenshotFormat::Webp => seq![
            StaticScreenshotFormat::Webp,
            StaticScreenshotFormat::Jpg,
            StaticScreenshotFormat::Png,
        ],
        StaticScreenshotFormat::Png => seq![
            StaticScreenshotFormat::Png,
            StaticScreenshotFormat::Jpg,
            StaticScreenshotFormat::Webp,
        ],
    }
}

pub fn static_screenshot_attempts(primary: StaticScreenshotFormat) -> (r: Vec<StaticScreenshotFormat>)
    ensures
        r@ == screenshot_attempts(primary),
{
    let mut attempts: Vec<StaticScreenshotFormat> = Vec::new();
    attempts.push(primary);
    if primary != StaticScreenshotFormat::Jpg {
        attempts.push(StaticScreenshotFormat::Jpg);
    }
    if primary != StaticScreenshotFormat::Webp {
        attempts.push(StaticScreenshotFormat::Webp);
    }
    if primary != StaticScreenshotFormat::Png {
        attempts.push(StaticScreenshotFormat::Png);
    }
    assert(attempts@ =~= screenshot_attempts(primary));
    attempts
}

/// Why no media source could be chosen.
#[derive(Clone, Copy, Debug, PartialEq, Eq, Structural)]
pub enum MediaSourceError {
    /// The file is not on disk and no media server is configured.
    Unavailable,
    /// Access is through the API only and no media server is configured.
    ApiWithoutServer,
}

impl MediaSourceError {
    pub fn message(&self) -> (r: &'static str)
        ensures
            r@ == (match self {
                MediaSourceError::Unavailable => "Media source is not available on disk and no media server is configured"@,
                MediaSourceError::ApiWithoutServer => "Media access mode is API but no media server is configured"@,
            }),
    {
        match self {
            MediaSourceError::Unavailable => "Media source is not available on disk and no media server is configured",
            MediaSourceError::ApiWithoutServer => "Media access mode is API but no media server is configured",
        }
    }
}

/// The source chosen for media: from disk first (disk and automatic modes)
/// when the mapped file exists, else the server's stream URL; the API mode
/// uses the stream URL only.
pub open spec fn media_source(
    mode: MediaAccessMode,
    stream_url: Option<Seq<char>>,
    disk_path: Option<Seq<char>>,
) -> Result<Seq<char>, MediaSourceError> {
    match mode {
        MediaAccessMode::Api => match stream_url {
            Some(u) => Ok(u),
            None => Err(MediaSourceError::ApiWithoutServer),
        },
        _ => match disk_path {
            Some(p) => Ok(p),
            None => match stream_url {
                Some(u) => Ok(u),
                None => Err(MediaSourceError::Unavailable),
            },
        },
    }
}

/// Chooses where media is read from. `stream_url` is the media server's
/// stream URL of the item (none without a server); `existing_disk_path` is
/// the mapped local path when that file exists.
pub fn resolve_media_source(
    config: &Config,
    stream_url: Option<String>,
    existing_disk_path: Option<String>,
) -> (r: Result<String, MediaSourceError>)
    ensures
        match r {
            Ok(s) => media_source(
                config.media_access_mode,
                crate::text::opt_view(stream_url),
                crate::text::opt_view(existing_disk_path),
            ) == Ok::<Seq<char>, MediaSourceError>(s@),
            Err(e) => media_source(
                config.media_access_mode,
                crate::text::opt_view(stream_url),
                crate::text::opt_view(existing_disk_path),
            ) == Err::<Seq<char>, MediaSourceError>(e),
        },
{
    match config.media_access_mode {
        MediaAccessMode::Api => match stream_url {
            Some(u) => Ok(u),
            None => Err(MediaSourceError::ApiWithoutServer),
        },
        _ => match existing_disk_path {
            Some(p) => Ok(p),
            None => match stream_url {
                Some(u) => Ok(u),
                None => Err(MediaSourceError::Unavailable),
            },
        },
    }
}

// ---------------------------------------------------------------------------
// Base64
// ---------------------------------------------------------------------------

/// The standard base64 encoding (RFC 4648 alphabet, with `=` padding) of
/// the bytes, as the `base64` crate computes it.
pub uninterp spec fn base64_standard(data: Seq<u8>) -> Seq<char>;

/// Trusted: `base64::engine::general_purpose::STANDARD.encode` (base64
/// 0.22). Its result depends on the bytes alone, so it is named; the crate
/// sizes it as four characters per started group of three bytes (padding
/// included) and panics only when that size overflows `usize`.
#[verifier::external_body]
fn encode_standard(data: &[u8]) -> (r: String)
    requires
        4 * ((data@.len() + 2) / 3) <= usize::MAX,
    ensures
        r@ == base64_standard(data@),
        r@.len() == 4 * ((data@.len() + 2) / 3),
{
    base64::engine::general_purpose::STANDARD.encode(data)
}

/// The bytes in standard base64, as AnkiConnect takes media.
pub fn to_base64(data: &[u8]) -> (r: String)
    requires
        4 * ((data@.len() + 2) / 3) <= usize::MAX,
    ensures
        r@ == base64_standard(data@),
        r@.len() == 4 * ((data@.len() + 2) / 3),
{
    encode_standard(data)
}


// ---------------------------------------------------------------------------
// ffmpeg arguments
// ---------------------------------------------------------------------------

/// The texts of a list of arguments.
pub open spec fn arg_texts(args: Seq<String>) -> Seq<Seq<char>> {
    args.map_values(|a: String| a@)
}

/// A time in milliseconds as seconds with three decimals, the way `{:.3}`
/// prints `ms / 1000`.
pub open spec fn seconds_text(ms: int) -> Seq<char> {
    let a = if ms < 0 {
        -ms
    } else {
        ms
    };
    (if ms < 0 {
        seq!['-']
    } else {
        Seq::<char>::empty()
    }) + decimal_digits((a / 1000) as nat) + seq!['.'] + zero_padded((a % 1000) as nat, 3)
}

/// Seconds with three decimals (see [`seconds_text`]).
pub fn seconds_arg(ms: i64) -> (r: String)
    ensures
        r@ == seconds_text(ms as int),
{
    let a: u64 = if ms < 0 {
        if ms == i64::MIN {
            0x8000_0000_0000_0000u64
        } else {
            (-ms) as u64
        }
    } else {
        ms as u64
    };
    let mut t: Vec<char> = Vec::new();
    if ms < 0 {
        t.push('-');
    }
    let whole = u64_digits(a / 1000);
    append(&mut t, &whole);
    t.push('.');
    let frac = u64_padded(a % 1000, 3);
    append(&mut t, &frac);
    assert(t@ =~= seconds_text(ms as int));
    string_of(&t)
}

fn push_arg(args: &mut Vec<String>, a: &str)
    ensures
        arg_texts(final(args)@) == arg_texts(old(args)@).push(a@),
{
    let ghost before = args@;
    args.push(owned(a));
    assert(arg_texts(args@) =~= arg_texts(before).push(a@));
}

fn push_string(args: &mut Vec<String>, a: String)
    ensures
        arg_texts(final(args)@) == arg_texts(old(args)@).push(a@),
{
    let ghost before = args@;
    let ghost text = a@;
    args.push(a);
    assert(arg_texts(args@) =~= arg_texts(before).push(text));
}

fn push_all(args: &mut Vec<String>, more: &Vec<&'static str>)
    ensures
        arg_texts(final(args)@) == arg_texts(old(args)@) + more@.map_values(|a: &str| a@),
{
    let ghost start = arg_texts(args@);
    let mut k: usize = 0;
    while k < more.len()
        invariant
            k <= more@.len(),
            arg_texts(args@) == start + more@.map_values(|a: &str| a@).take(k as int),
        decreases more.len() - k,
    {
        push_arg(args, more[k]);
        assert(more@.map_values(|a: &str| a@).take(k + 1) =~= more@.map_values(|a: &str| a@).take(
            k as int,
        ).push(more[k as int]@));
        k += 1;
    }
    assert(more@.map_values(|a: &str| a@).take(more@.len() as int) =~= more@.map_values(|a: &str| a@));
}

/// The stream mapping for sentence audio: the audio stream with the given
/// ordinal when known, else the stream with the given absolute index, else
/// none (the container's default audio).
pub open spec fn audio_map_text(index: Option<u32>, ordinal: Option<usize>) -> Seq<Seq<char>> {
    match ordinal {
        Some(o) => seq!["-map"@, "0:a:"@ + decimal_digits(o as nat)],
        None => match index {
            Some(i) => seq!["-map"@, "0:"@ + decimal_digits(i as nat)],
            None => Seq::empty(),
        },
    }
}

/// The ffmpeg arguments that cut sentence audio from `start_ms` to
/// `end_ms` of `source` into `output_path`.
pub open spec fn audio_extraction_args_text(
    source: Seq<char>,
    start_ms: int,
    end_ms: int,
    index: Option<u32>,
    ordinal: Option<usize>,
    codec: AudioCodec,
    output_path: Seq<char>,
) -> Seq<Seq<char>> {
    http_input_args_text(source) + seq![
        "-y"@,
        "-ss"@,
        seconds_text(start_ms),
        "-i"@,
        source,
        "-t"@,
        seconds_text(end_ms - start_ms),
    ] + audio_map_text(index, ordinal) + seq!["-vn"@] + codec.args_text() + seq![output_path]
}

/// The ffmpeg arguments for sentence audio (see
/// [`audio_extraction_args_text`]).
pub fn audio_extraction_args(
    source: &str,
    start_ms: i64,
    end_ms: i64,
    audio_stream_index: Option<u32>,
    audio_stream_ordinal: Option<usize>,
    codec: AudioCodec,
    output_path: &str,
) -> (r: Vec<String>)
    requires
        i64::MIN <= end_ms - start_ms <= i64::MAX,
    ensures
        arg_texts(r@) == audio_extraction_args_text(
            source@,
            start_ms as int,
            end_ms as int,
            audio_stream_index,
            audio_stream_ordinal,
            codec,
            output_path@,
        ),
{
    let mut args: Vec<String> = Vec::new();
    push_all(&mut args, &http_input_args(source));
    push_arg(&mut args, "-y");
    push_arg(&mut args, "-ss");
    push_string(&mut args, seconds_arg(start_ms));
    push_arg(&mut args, "-i");
    push_arg(&mut args, source);
    push_arg(&mut args, "-t");
    push_string(&mut args, seconds_arg(end_ms - start_ms));
    let ghost before_map = arg_texts(args@);
    match audio_stream_ordinal {
        Some(o) => {
            push_arg(&mut args, "-map");
            let mut t: Vec<char> = Vec::new();
            append_str(&mut t, "0:a:");
            let digits = u64_digits(o as u64);
            append(&mut t, &digits);
            push_string(&mut args, string_of(&t));
        },
        None => match audio_stream_index {
            Some(i) => {
                push_arg(&mut args, "-map");
                let mut t: Vec<char> = Vec::new();
                append_str(&mut t, "0:");
                let digits = u64_digits(i as u64);
                append(&mut t, &digits);
                push_string(&mut args, string_of(&t));
            },
            None => {},
        },
    }
    assert(arg_texts(args@) =~= before_map + audio_map_text(audio_stream_index, audio_stream_ordinal));
    push_arg(&mut args, "-vn");
    push_all(&mut args, &codec.ffmpeg_args());
    push_arg(&mut args, output_path);
    assert(arg_texts(args@) =~= audio_extraction_args_text(
        source@,
        start_ms as int,
        end_ms as int,
        audio_stream_index,
        audio_stream_ordinal,
        codec,
        output_path@,
    ));
    args
}


/// The encoder arguments for a still screenshot format.
pub open spec fn screenshot_format_args(format: StaticScreenshotFormat) -> Seq<Seq<char>> {
    match format {
        StaticScreenshotFormat::Webp => seq!["-c:v"@, "libwebp"@, "-quality"@, "90"@],
        StaticScreenshotFormat::Jpg => seq!["-c:v"@, "mjpeg"@, "-q:v"@, "2"@],
        StaticScreenshotFormat::Png => seq!["-c:v"@, "png"@, "-compression_level"@, "6"@],
    }
}

/// The ffmpeg arguments that take one frame at `time_ms` of `source`,
/// scaled to 640 pixels wide, into `output_path`.
pub open spec fn screenshot_args_text(
    source: Seq<char>,
    time_ms: int,
    output_path: Seq<char>,
    format: StaticScreenshotFormat,
) -> Seq<Seq<char>> {
    http_input_args_text(source) + seq![
        "-y"@,
        "-ss"@,
        seconds_text(time_ms),
        "-i"@,
        source,
        "-frames:v"@,
        "1"@,
        "-vf"@,
        "scale=640:-1"@,
    ] + screenshot_format_args(format) + seq![output_path]
}

/// The ffmpeg arguments for a still screenshot (see
/// [`screenshot_args_text`]).
pub fn screenshot_args(
    source: &str,
    time_ms: i64,
    output_path: &str,
    format: StaticScreenshotFormat,
) -> (r: Vec<String>)
    ensures
        arg_texts(r@) == screenshot_args_text(source@, time_ms as int, output_path@, format),
{
    let mut args: Vec<String> = Vec::new();
    push_all(&mut args, &http_input_args(source));
    push_arg(&mut args, "-y");
    push_arg(&mut args, "-ss");
    push_string(&mut args, seconds_arg(time_ms));
    push_arg(&mut args, "-i");
    push_arg(&mut args, source);
    push_arg(&mut args, "-frames:v");
    push_arg(&mut args, "1");
    push_arg(&mut args, "-vf");
    push_arg(&mut args, "scale=640:-1");
    let ghost before = arg_texts(args@);
    match format {
        StaticScreenshotFormat::Webp => {
            push_arg(&mut args, "-c:v");
            push_arg(&mut args, "libwebp");
            push_arg(&mut args, "-quality");
            push_arg(&mut args, "90");
        },
        StaticScreenshotFormat::Jpg => {
            push_arg(&mut args, "-c:v");
            push_arg(&mut args, "mjpeg");
            push_arg(&mut args, "-q:v");
            push_arg(&mut args, "2");
        },
        StaticScreenshotFormat::Png => {
            push_arg(&mut args, "-c:v");
            push_arg(&mut args, "png");
            push_arg(&mut args, "-compression_level");
            push_arg(&mut args, "6");
        },
    }
    assert(arg_texts(args@) =~= before + screenshot_format_args(format));
    push_arg(&mut args, output_path);
    assert(arg_texts(args@) =~= screenshot_args_text(source@, time_ms as int, output_path@, format));
    args
}

/// `x * num / den` rounded to the nearest integer, halves up.
pub open spec fn rounded_share(x: nat, num: nat, den: nat) -> nat
    recommends
        den > 0,
{
    (2 * x * num + den) / (2 * den)
}

/// The frame rate, width and quality of an animated screenshot.
#[derive(Clone, Copy, Debug, PartialEq, Eq, Structural)]
pub struct AvifPlan {
    pub fps: u32,
    pub width: u32,
    pub crf: i32,
}

/// The animated screenshot settings for a clip: clips over 10 s get 60% of
/// the frame rate cap, 75% of the width cap and quality 45; clips over 5 s
/// get 80%, five sixths and 42; shorter clips the caps and 40. At least 1
/// frame per second and 2 pixels.
pub open spec fn avif_plan_spec(duration_ms: int, max_width: u32, max_fps: u32) -> AvifPlan {
    let (fps, width, crf) = if duration_ms > 10000 {
        (rounded_share(max_fps as nat, 3, 5), rounded_share(max_width as nat, 3, 4), 45i32)
    } else if duration_ms > 5000 {
        (rounded_share(max_fps as nat, 4, 5), rounded_share(max_width as nat, 5, 6), 42i32)
    } else {
        (max_fps as nat, max_width as nat, 40i32)
    };
    AvifPlan {
        fps: if fps < 1 {
            1
        } else {
            fps as u32
        },
        width: if width < 2 {
            2
        } else {
            width as u32
        },
        crf,
    }
}

fn rounded_share_exec(x: u32, num: u64, den: u64) -> (r: u32)
    requires
        0 < den,
        num <= den,
        den <= 6,
    ensures
        r == rounded_share(x as nat, num as nat, den as nat),
{
    let wide = x as u64;
    assert(2 * wide * num <= 12 * 0xffff_ffffu64) by (nonlinear_arith)
        requires
            wide <= 0xffff_ffffu64,
            num <= 6,
    ;
    let q = (2 * wide * num + den) / (2 * den);
    assert(q <= x) by (nonlinear_arith)
        requires
            q == (2 * wide * num + den) / (2 * den),
            wide == x,
            num <= den,
            0 < den,
    ;
    q as u32
}

/// The animated screenshot settings for the clip from `start_ms` to
/// `end_ms` (see [`avif_plan_spec`]).
pub fn avif_plan(start_ms: i64, end_ms: i64, max_width: u32, max_fps: u32) -> (r: AvifPlan)
    requires
        i64::MIN <= end_ms - start_ms <= i64::MAX,
    ensures
        r == avif_plan_spec(end_ms - start_ms, max_width, max_fps),
{
    let duration = end_ms - start_ms;
    let (fps, width, crf) = if duration > 10000 {
        (rounded_share_exec(max_fps, 3, 5), rounded_share_exec(max_width, 3, 4), 45i32)
    } else if duration > 5000 {
        (rounded_share_exec(max_fps, 4, 5), rounded_share_exec(max_width, 5, 6), 42i32)
    } else {
        (max_fps, max_width, 40i32)
    };
    AvifPlan {
        fps: if fps < 1 {
            1
        } else {
            fps
        },
        width: if width < 2 {
            2
        } else {
            width
        },
        crf,
    }
}

/// The video filter of an animated screenshot: the frame rate, and the
/// width capped at the source's, with an even height that keeps the aspect.
pub open spec fn avif_filter_text(plan: AvifPlan) -> Seq<char> {
    "fps="@ + decimal_digits(plan.fps as nat) + ",scale='min("@ + decimal_digits(plan.width as nat)
        + ",iw)':-2"@
}

/// The video filter of an animated screenshot (see [`avif_filter_text`]).
pub fn avif_filter(plan: AvifPlan) -> (r: String)
    ensures
        r@ == avif_filter_text(plan),
{
    let mut t: Vec<char> = Vec::new();
    append_str(&mut t, "fps=");
    append(&mut t, &u64_digits(plan.fps as u64));
    append_str(&mut t, ",scale='min(");
    append(&mut t, &u64_digits(plan.width as u64));
    append_str(&mut t, ",iw)':-2");
    string_of(&t)
}

/// The ffmpeg arguments that encode the clip from `start_ms` to `end_ms`
/// of `source` as an animated AVIF into `output_path`, without audio.
pub open spec fn avif_args_text(
    source: Seq<char>,
    start_ms: int,
    end_ms: int,
    filter: Seq<char>,
    crf: i32,
    encoder: AnimatedScreenshotEncoder,
    output_path: Seq<char>,
) -> Seq<Seq<char>> {
    http_input_args_text(source) + seq![
        "-y"@,
        "-ss"@,
        seconds_text(start_ms),
        "-i"@,
        source,
        "-t"@,
        seconds_text(end_ms - start_ms),
        "-vf"@,
        filter,
        "-c:v"@,
        encoder.name_text(),
        "-crf"@,
        int_text(crf as int),
    ] + (if encoder == AnimatedScreenshotEncoder::Libsvtav1 {
        seq!["-preset"@, "8"@]
    } else {
        Seq::empty()
    }) + seq!["-an"@, "-movflags"@, "+faststart"@, output_path]
}

/// The ffmpeg arguments for an animated screenshot (see
/// [`avif_args_text`]).
pub fn avif_args(
    source: &str,
    start_ms: i64,
    end_ms: i64,
    filter: &str,
    crf: i32,
    encoder: AnimatedScreenshotEncoder,
    output_path: &str,
) -> (r: Vec<String>)
    requires
        i64::MIN <= end_ms - start_ms <= i64::MAX,
    ensures
        arg_texts(r@) == avif_args_text(
            source@,
            start_ms as int,
            end_ms as int,
            filter@,
            crf,
            encoder,
            output_path@,
        ),
{
    let mut args: Vec<String> = Vec::new();
    push_all(&mut args, &http_input_args(source));
    push_arg(&mut args, "-y");
    push_arg(&mut args, "-ss");
    push_string(&mut args, seconds_arg(start_ms));
    push_arg(&mut args, "-i");
    push_arg(&mut args, source);
    push_arg(&mut args, "-t");
    push_string(&mut args, seconds_arg(end_ms - start_ms));
    push_arg(&mut args, "-vf");
    push_arg(&mut args, filter);
    push_arg(&mut args, "-c:v");
    push_arg(&mut args, encoder.as_str());
    push_arg(&mut args, "-crf");
    push_string(&mut args, string_of(&i64_text(crf as i64)));
    let ghost before = arg_texts(args@);
    if encoder == AnimatedScreenshotEncoder::Libsvtav1 {
        push_arg(&mut args, "-preset");
        push_arg(&mut args, "8");
    }
    assert(arg_texts(args@) =~= before + (if encoder == AnimatedScreenshotEncoder::Libsvtav1 {
        seq!["-preset"@, "8"@]
    } else {
        Seq::<Seq<char>>::empty()
    }));
    push_arg(&mut args, "-an");
    push_arg(&mut args, "-movflags");
    push_arg(&mut args, "+faststart");
    push_arg(&mut args, output_path);
    assert(arg_texts(args@) =~= avif_args_text(
        source@,
        start_ms as int,
        end_ms as int,
        filter@,
        crf,
        encoder,
        output_path@,
    ));
    args
}

} // verus!

use nagare::subtitle::{
    find_matching_line, normalize_japanese, parse_ass, parse_srt, parse_subtitle, parse_vtt,
    SubtitleLine, SubtitleTrack,
};

fn line(index: usize, start_ms: i64, end_ms: i64, text: &str) -> SubtitleLine {
    SubtitleLine { index, start_ms, end_ms, text: text.to_string() }
}

#[test]
fn test_parse_vtt() {
    let content = r#"WEBVTT

00:00:01.000 --> 00:00:04.000
こんにちは世界

00:00:05.000 --> 00:00:08.000
これはテストです
"#;
    let track = parse_vtt(content);
    assert_eq!(track.lines.len(), 2);
    assert_eq!(track.lines[0].text, "こんにちは世界");
    assert_eq!(track.lines[0].start_ms, 1000);
    assert_eq!(track.lines[0].end_ms, 4000);
    assert_eq!(track.lines[1].text, "これはテストです");
}

#[test]
fn test_parse_srt() {
    let content = r#"1
00:00:01,000 --> 00:00:04,000
こんにちは世界

2
00:00:05,000 --> 00:00:08,000
これはテストです
"#;
    let track = parse_srt(content);
    assert_eq!(track.lines.len(), 2);
    assert_eq!(track.lines[0].text, "こんにちは世界");
}

#[test]
fn test_parse_ass() {
    let content = r#"[Script Info]
Title: Test

[Events]
Format: Layer, Start, End, Style, Name, MarginL, MarginR, MarginV, Effect, Text
Dialogue: 0,0:00:01.00,0:00:04.00,Default,,0,0,0,,{\b1}こんにちは{\b0}世界
Dialogue: 0,0:00:05.00,0:00:08.00,Default,,0,0,0,,これはテストです
"#;
    let track = parse_ass(content);
    assert_eq!(track.lines.len(), 2);
    assert_eq!(track.lines[0].text, "こんにちは世界");
    assert_eq!(track.lines[0].start_ms, 1000);
}

#[test]
fn test_normalize_japanese() {
    let text = "「こんにちは、世界！」";
    let normalized = normalize_japanese(text);
    assert_eq!(normalized, "こんにちは世界");
}

#[test]
fn test_find_matching_line() {
    let track = SubtitleTrack {
        lines: vec![
            line(0, 0, 3000, "始まりましょう"),
            line(1, 3000, 6000, "こんにちは世界"),
            line(2, 6000, 9000, "さようなら"),
        ],
    };
    let result = find_matching_line(&track, "こんにちは世界", 4000, 30_000);
    assert_eq!(result, Some(1));
}

#[test]
fn ass_lines_come_out_in_start_order_and_renumbered() {
    let content = "[Events]\nFormat: Start, End, Text\nDialogue: 0:00:05.00,0:00:06.00,second\nDialogue: 0:00:01.00,0:00:02.00,first\nDialogue: 0:00:05.00,0:00:07.00,third\n";
    let track = parse_ass(content);
    let texts: Vec<&str> = track.lines.iter().map(|l| l.text.as_str()).collect();
    assert_eq!(texts, vec!["first", "second", "third"]);
    let indexes: Vec<usize> = track.lines.iter().map(|l| l.index).collect();
    assert_eq!(indexes, vec![0, 1, 2]);
    assert_eq!(track.lines[2].end_ms, 7000);
}

#[test]
fn ass_reading_stops_at_the_next_section_and_keeps_commas_in_text() {
    let content = "[events]\nFormat: Layer, Start, End, Text\nDialogue: 0,0:00:01.50,0:00:02.00,a, b\\Nc\n[Fonts]\nDialogue: 0,0:00:03.00,0:00:04.00,late\n";
    let track = parse_ass(content);
    assert_eq!(track.lines.len(), 1);
    assert_eq!(track.lines[0].text, "a, b\nc");
    assert_eq!(track.lines[0].start_ms, 1500);
}

#[test]
fn ass_dialogue_without_format_is_ignored() {
    let content = "[Events]\nDialogue: 0,0:00:01.00,0:00:02.00,Default,,0,0,0,,text\n";
    assert_eq!(parse_ass(content).lines.len(), 0);
}

#[test]
fn vtt_accepts_minute_timestamps_and_strips_tags() {
    let content = "WEBVTT\n\n01:02.500 --> 01:04.000 align:start\n<i>hello</i>\nworld\n\n1:00:00.000-->1:00:01.250\n<b></b>\n";
    let track = parse_vtt(content);
    assert_eq!(track.lines.len(), 1);
    assert_eq!(track.lines[0].start_ms, 62_500);
    assert_eq!(track.lines[0].end_ms, 64_000);
    assert_eq!(track.lines[0].text, "hello\nworld");
}

#[test]
fn srt_needs_a_number_line_before_the_timing() {
    let content = "00:00:01,000 --> 00:00:02,000\nno number\n\n7\r\n00:00:03,000 --> 00:00:04,500\r\nkept\r\n";
    let track = parse_srt(content);
    assert_eq!(track.lines.len(), 1);
    assert_eq!(track.lines[0].text, "kept");
    assert_eq!(track.lines[0].start_ms, 3000);
    assert_eq!(track.lines[0].end_ms, 4500);
    assert_eq!(track.lines[0].index, 0);
}

#[test]
fn subtitle_format_is_chosen_by_extension_then_content() {
    let vtt = "WEBVTT\n\n00:00:01.000 --> 00:00:02.000\nx\n";
    assert_eq!(parse_subtitle(vtt, Some("episode.VTT")).lines.len(), 1);
    assert_eq!(parse_subtitle(vtt, None).lines.len(), 1);
    assert_eq!(parse_subtitle(vtt, Some("episode.srt")).lines.len(), 0);
    let ass = "[Script Info]\n[Events]\nFormat: Start, End, Text\nDialogue: 0:00:01.00,0:00:02.00,y\n";
    assert_eq!(parse_subtitle(ass, Some("noext")).lines[0].text, "y");
    let srt = "1\n00:00:01,000 --> 00:00:02,000\nz\n";
    assert_eq!(parse_subtitle(srt, Some("a.b.unknown")).lines[0].text, "z");
}

#[test]
fn line_lookup_by_time() {
    let track = SubtitleTrack {
        lines: vec![line(0, 0, 1000, "a"), line(1, 2000, 3000, "b"), line(2, 2500, 4000, "c")],
    };
    assert_eq!(track.line_at_time(1000), Some(0));
    assert_eq!(track.line_at_time(1500), None);
    assert_eq!(track.line_at_time(2600), Some(1));
    assert_eq!(track.nearest_line(1600), Some(1));
    assert_eq!(track.nearest_line(5000), Some(2));
    assert_eq!(SubtitleTrack { lines: vec![] }.nearest_line(0), None);
}

#[test]
fn partial_matches_need_more_than_half_the_bytes() {
    let track = SubtitleTrack {
        lines: vec![line(0, 0, 1000, "abcdefgh"), line(1, 5000, 6000, "abcdxyzw")],
    };
    // Containment counts even far from the position.
    assert_eq!(find_matching_line(&track, "efg", 5500, 10_000), Some(0));
    // Both lines share more than half their bytes with the sentence; the
    // longer common subsequence outweighs the nearer midpoint.
    assert_eq!(find_matching_line(&track, "<b>abcdexyz</b>", 500, 10_000), Some(1));
    // With a narrow window only the near line is a candidate.
    assert_eq!(find_matching_line(&track, "abcdexyz", 500, 1_000), Some(0));
    // Outside the window nothing matches.
    assert_eq!(find_matching_line(&track, "abcdefgh", 100_000, 1_000), None);
    // Punctuation alone normalizes to nothing.
    assert_eq!(find_matching_line(&track, "。、", 0, 1_000), None);
}

#[test]
fn active_line_prefers_the_line_on_screen() {
    let track = SubtitleTrack {
        lines: vec![line(0, 1_000, 2_000, "a"), line(1, 1_500, 4_000, "b"), line(2, 6_000, 8_000, "c")],
    };
    assert_eq!(track.active_line(1_800), Some(0));
    assert_eq!(track.active_line(3_000), Some(1));
    // Between lines: the nearest midpoint (2750 vs 7000).
    assert_eq!(track.active_line(4_500), Some(1));
    assert_eq!(track.active_line(5_000), Some(2));
    assert!(track.midpoints_fit(5_000));
    assert_eq!(SubtitleTrack { lines: Vec::new() }.active_line(0), None);
}

#[test]
fn midpoint_arithmetic_limits() {
    let wide = SubtitleTrack { lines: vec![line(0, i64::MAX, i64::MAX, "x")] };
    assert!(!wide.midpoints_fit(0));
    let far = SubtitleTrack { lines: vec![line(0, 0, 2, "x")] };
    assert!(far.midpoints_fit(i64::MIN + 2));
    assert!(!far.midpoints_fit(i64::MIN));
}

#[test]
fn a_negative_window_favours_far_lines_that_span_it() {
    let track = SubtitleTrack {
        lines: vec![line(0, 0, 10_000, "こんにちは"), line(1, 4_000, 8_000, "こんにちは"), line(2, 4_500, 5_500, "こんにちは")],
    };
    // The window [6000, 4000] only holds lines spanning it; the score
    // 2 + d / 1000 prefers the line whose midpoint is further away.
    assert_eq!(find_matching_line(&track, "こんにちは", 5_000, -1_000), Some(1));
}

#[test]
fn a_zero_window_takes_the_first_line_at_the_position() {
    let track = SubtitleTrack {
        lines: vec![
            line(0, 0, 4_000, "こんにちは"),
            line(1, 4_000, 6_000, "こんばんは、こんにちは"),
            line(2, 4_900, 5_100, "こんにちは"),
            line(3, 5_000, 5_000, "こんにちは"),
        ],
    };
    // Only lines touching 5000 are in the window, and they all rank alike.
    assert_eq!(find_matching_line(&track, "こんにちは", 5_000, 0), Some(1));
    assert_eq!(find_matching_line(&track, "さようなら", 5_000, 0), None);
}

//! Subtitle tracks: the SRT, WebVTT and ASS/SSA readers, and the matching of
//! a mined sentence to a subtitle line.
use vstd::prelude::*;
use crate::text::{
    chars_of, is_digit, find_char_from, is_ws, char_is_ws, lemma_next_index_of, next_index_of,
    parse_i64, parse_i64_spec, slice_vec, split_chars, split_seq, string_of, trim, trim_chars,
    lines_chars, lines_seq, join_seq, join_chars, is_blank, parse_u32, parse_u32_spec,
    eq_ignore_case, eq_ignore_case_chars, has_prefix, starts_with_chars, splitn_seq, splitn_chars,
    seq_equal, contains_seq, contains_chars, utf8_len, utf8_len_exec, after_last, after_last_exec,
    split_from, all_digits, decimal_value, signed_parts,
};

verus! {

/// One timed subtitle line.
pub struct SubtitleLine {
    pub index: usize,
    pub start_ms: i64,
    pub end_ms: i64,
    pub text: String,
}

/// A parsed subtitle track, lines in display order.
pub struct SubtitleTrack {
    pub lines: Vec<SubtitleLine>,
}

impl Clone for SubtitleLine {
    fn clone(&self) -> (r: Self)
        ensures
            r.index == self.index,
            r.start_ms == self.start_ms,
            r.end_ms == self.end_ms,
            r.text@ == self.text@,
    {
        SubtitleLine {
            index: self.index,
            start_ms: self.start_ms,
            end_ms: self.end_ms,
            text: self.text.clone(),
        }
    }
}

impl Clone for SubtitleTrack {
    fn clone(&self) -> (r: Self)
        ensures
            r.lines@.len() == self.lines@.len(),
            forall|k: int|
                0 <= k < self.lines@.len() ==> #[trigger] line_model(r.lines@[k]) == line_model(
                    self.lines@[k],
                ),
    {
        let mut lines: Vec<SubtitleLine> = Vec::new();
        let mut i: usize = 0;
        while i < self.lines.len()
            invariant
                i <= self.lines@.len(),
                lines@.len() == i,
                forall|k: int|
                    0 <= k < i ==> #[trigger] line_model(lines@[k]) == line_model(self.lines@[k]),
            decreases self.lines.len() - i,
        {
            lines.push(self.lines[i].clone());
            i += 1;
        }
        SubtitleTrack { lines }
    }
}

/// The plain content of a line: index, start, end and text.
pub open spec fn line_model(l: SubtitleLine) -> (int, i64, i64, Seq<char>) {
    (l.index as int, l.start_ms, l.end_ms, l.text@)
}

/// A line as the readers produce it, before it is numbered: start, end, text.
pub type Cue = (i64, i64, Seq<char>);

/// Whether a track holds exactly the given cues, numbered 0, 1, 2, ... in order.
pub open spec fn track_is(track: SubtitleTrack, cues: Seq<Cue>) -> bool {
    &&& track.lines@.len() == cues.len()
    &&& forall|k: int|
        0 <= k < cues.len() ==> {
            &&& (#[trigger] track.lines@[k]).index == k
            &&& track.lines@[k].start_ms == cues[k].0
            &&& track.lines@[k].end_ms == cues[k].1
            &&& track.lines@[k].text@ == cues[k].2
        }
}

// ---------------------------------------------------------------------------
// Line lookup by time
// ---------------------------------------------------------------------------

/// Whether a line is on screen at `t` (both ends inclusive).
pub open spec fn covers(l: SubtitleLine, t: i64) -> bool {
    l.start_ms <= t <= l.end_ms
}

/// Rust's `/ 2` on a signed integer: the quotient rounded toward zero.
pub open spec fn half_toward_zero(x: int) -> int {
    if x >= 0 {
        x / 2
    } else {
        -((-x) / 2)
    }
}

/// The midpoint of a line, as `(start + end) / 2`.
pub open spec fn midpoint(l: SubtitleLine) -> int {
    half_toward_zero(l.start_ms + l.end_ms)
}

/// Distance from a line's midpoint to `t`.
pub open spec fn mid_distance(l: SubtitleLine, t: i64) -> int {
    let d = midpoint(l) - t;
    if d < 0 {
        -d
    } else {
        d
    }
}

/// Whether the midpoint arithmetic of every line stays within `i64` for `t`
/// (checked arithmetic would fail otherwise).
pub open spec fn mid_arith_fits(track: SubtitleTrack, t: i64) -> bool {
    forall|k: int|
        0 <= k < track.lines@.len() ==> {
            &&& i64::MIN < (#[trigger] track.lines@[k]).start_ms + track.lines@[k].end_ms
                <= i64::MAX
            &&& i64::MIN < midpoint(track.lines@[k]) - t <= i64::MAX
        }
}

fn half_exec(x: i64) -> (r: i64)
    requires
        x > i64::MIN,
    ensures
        r == half_toward_zero(x as int),
{
    if x >= 0 {
        x / 2
    } else {
        -((-x) / 2)
    }
}

impl SubtitleTrack {
    /// Position of the first line on screen at `time_ms`.
    pub fn line_at_time(&self, time_ms: i64) -> (r: Option<usize>)
        ensures
            match r {
                Some(k) => k < self.lines@.len() && covers(self.lines@[k as int], time_ms) && forall|
                    j: int,
                | 0 <= j < k ==> !covers(#[trigger] self.lines@[j], time_ms),
                None => forall|j: int|
                    0 <= j < self.lines@.len() ==> !covers(#[trigger] self.lines@[j], time_ms),
            },
    {
        let mut i: usize = 0;
        while i < self.lines.len()
            invariant
                i <= self.lines@.len(),
                forall|j: int| 0 <= j < i ==> !covers(#[trigger] self.lines@[j], time_ms),
            decreases self.lines.len() - i,
        {
            if time_ms >= self.lines[i].start_ms && time_ms <= self.lines[i].end_ms {
                return Some(i);
            }
            i += 1;
        }
        None
    }

    /// Position of the line whose midpoint is closest to `time_ms`, the first
    /// one on a tie; `None` for an empty track.
    pub fn nearest_line(&self, time_ms: i64) -> (r: Option<usize>)
        requires
            mid_arith_fits(*self, time_ms),
        ensures
            self.lines@.len() == 0 ==> r is None,
            self.lines@.len() > 0 ==> (r matches Some(k) && k < self.lines@.len() && (forall|j: int|
                0 <= j < self.lines@.len() ==> mid_distance(self.lines@[k as int], time_ms)
                    <= mid_distance(#[trigger] self.lines@[j], time_ms)) && (forall|j: int|
                0 <= j < k ==> mid_distance(self.lines@[k as int], time_ms) < mid_distance(
                    #[trigger] self.lines@[j],
                    time_ms,
                ))),
    {
        if self.lines.len() == 0 {
            return None;
        }
        let mut best_idx: usize = 0;
        let mut best_dist: i64 = i64::MAX;
        let mut i: usize = 0;
        while i < self.lines.len()
            invariant
                mid_arith_fits(*self, time_ms),
                i <= self.lines@.len(),
                self.lines@.len() > 0,
                best_idx < self.lines@.len(),
                i == 0 ==> best_idx == 0 && best_dist == i64::MAX,
                i > 0 ==> best_idx < i && best_dist == mid_distance(
                    self.lines@[best_idx as int],
                    time_ms,
                ),
                forall|j: int|
                    0 <= j < i ==> best_dist <= mid_distance(#[trigger] self.lines@[j], time_ms),
                forall|j: int|
                    0 <= j < best_idx ==> best_dist < mid_distance(
                        #[trigger] self.lines@[j],
                        time_ms,
                    ),
            decreases self.lines.len() - i,
        {
            let line = &self.lines[i];
            assert(i64::MIN < line.start_ms + line.end_ms <= i64::MAX);
            let mid = half_exec(line.start_ms + line.end_ms);
            assert(i64::MIN < mid - time_ms <= i64::MAX);
            let diff = mid - time_ms;
            let dist = if diff < 0 {
                -diff
            } else {
                diff
            };
            if dist < best_dist {
                best_dist = dist;
                best_idx = i;
            }
            i += 1;
        }
        Some(best_idx)
    }

    /// Whether the midpoint arithmetic of [`nearest_line`](Self::nearest_line)
    /// stays within `i64` for `time_ms` (see [`mid_arith_fits`]).
    pub fn midpoints_fit(&self, time_ms: i64) -> (r: bool)
        ensures
            r == mid_arith_fits(*self, time_ms),
    {
        let mut k: usize = 0;
        while k < self.lines.len()
            invariant
                k <= self.lines@.len(),
                forall|j: int|
                    0 <= j < k ==> {
                        &&& i64::MIN < (#[trigger] self.lines@[j]).start_ms + self.lines@[j].end_ms
                            <= i64::MAX
                        &&& i64::MIN < midpoint(self.lines@[j]) - time_ms <= i64::MAX
                    },
            decreases self.lines.len() - k,
        {
            let a = self.lines[k].start_ms as i128;
            let b = self.lines[k].end_ms as i128;
            let sum = a + b;
            if !(-0x8000_0000_0000_0000i128 < sum && sum <= 0x7FFF_FFFF_FFFF_FFFFi128) {
                return false;
            }
            let mid: i128 = if sum >= 0 {
                sum / 2
            } else {
                -((-sum) / 2)
            };
            let d = mid - time_ms as i128;
            if !(-0x8000_0000_0000_0000i128 < d && d <= 0x7FFF_FFFF_FFFF_FFFFi128) {
                return false;
            }
            k += 1;
        }
        true
    }

    /// The line to highlight at `time_ms`: the first line on screen, else
    /// the line whose midpoint is nearest (the first on a tie); none for an
    /// empty track.
    pub fn active_line(&self, time_ms: i64) -> (r: Option<usize>)
        requires
            (forall|j: int| 0 <= j < self.lines@.len() ==> !covers(#[trigger] self.lines@[j], time_ms))
                ==> mid_arith_fits(*self, time_ms),
        ensures
            match r {
                Some(k) => k < self.lines@.len() && if exists|j: int|
                    0 <= j < self.lines@.len() && covers(#[trigger] self.lines@[j], time_ms) {
                    covers(self.lines@[k as int], time_ms) && forall|j: int|
                        0 <= j < k ==> !covers(#[trigger] self.lines@[j], time_ms)
                } else {
                    (forall|j: int|
                        0 <= j < self.lines@.len() ==> mid_distance(self.lines@[k as int], time_ms)
                            <= mid_distance(#[trigger] self.lines@[j], time_ms)) && (forall|j: int|
                        0 <= j < k ==> mid_distance(self.lines@[k as int], time_ms) < mid_distance(
                            #[trigger] self.lines@[j],
                            time_ms,
                        ))
                },
                None => self.lines@.len() == 0,
            },
    {
        match self.line_at_time(time_ms) {
            Some(k) => Some(k),
            None => self.nearest_line(time_ms),
        }
    }
}

// ---------------------------------------------------------------------------
// Timestamps
// ---------------------------------------------------------------------------

/// `h * 3_600_000 + m * 60_000 + s * 1_000 + f * unit` in wrapping `i64`
/// arithmetic, so that absurd timestamps wrap instead of failing.
pub open spec fn clock_ms(h: i64, m: i64, s: i64, f: i64, unit: i64) -> i64 {
    h.wrapping_mul(3_600_000).wrapping_add(m.wrapping_mul(60_000)).wrapping_add(
        s.wrapping_mul(1_000),
    ).wrapping_add(f.wrapping_mul(unit))
}

fn clock_ms_exec(h: i64, m: i64, s: i64, f: i64, unit: i64) -> (r: i64)
    ensures
        r == clock_ms(h, m, s, f, unit),
{
    h.wrapping_mul(3_600_000).wrapping_add(m.wrapping_mul(60_000)).wrapping_add(
        s.wrapping_mul(1_000),
    ).wrapping_add(f.wrapping_mul(unit))
}

/// `s.parse::<i64>().unwrap_or(0)`.
pub open spec fn int_or_zero(s: Seq<char>) -> i64 {
    match parse_i64_spec(s) {
        Some(v) => v,
        None => 0,
    }
}

fn int_or_zero_exec(s: &[char]) -> (r: i64)
    ensures
        r == int_or_zero(s@),
{
    match parse_i64(s) {
        Some(v) => v,
        None => 0,
    }
}

/// The clock part and fraction part of a WebVTT/SRT timestamp: split at the
/// first `.`, else at the first `,`, else the fraction is `"0"`.
pub open spec fn vtt_timestamp_parts(ts: Seq<char>) -> (Seq<char>, Seq<char>) {
    let p = next_index_of(ts, '.', 0);
    if p < ts.len() {
        (ts.take(p), ts.skip(p + 1))
    } else {
        let q = next_index_of(ts, ',', 0);
        if q < ts.len() {
            (ts.take(q), ts.skip(q + 1))
        } else {
            (ts, seq!['0'])
        }
    }
}

/// The value in milliseconds of a WebVTT/SRT timestamp `H:MM:SS.mmm` or
/// `MM:SS.mmm`; other shapes read as 0, unreadable fields as 0.
pub open spec fn vtt_timestamp_ms(ts: Seq<char>) -> i64 {
    let (time_part, frac_part) = vtt_timestamp_parts(ts);
    let ms = int_or_zero(frac_part);
    let c = split_seq(time_part, ':');
    if c.len() == 3 {
        clock_ms(int_or_zero(c[0]), int_or_zero(c[1]), int_or_zero(c[2]), ms, 1)
    } else if c.len() == 2 {
        clock_ms(0, int_or_zero(c[0]), int_or_zero(c[1]), ms, 1)
    } else {
        0
    }
}

/// The value in milliseconds of an ASS timestamp `H:MM:SS.CC` (centiseconds);
/// other shapes read as 0, unreadable fields as 0.
pub open spec fn ass_timestamp_ms(ts: Seq<char>) -> i64 {
    let parts = split_seq(ts, ':');
    if parts.len() != 3 {
        0
    } else {
        let sec = split_seq(parts[2], '.');
        let s = int_or_zero(sec[0]);
        let cs = if sec.len() > 1 {
            int_or_zero(sec[1])
        } else {
            0
        };
        clock_ms(int_or_zero(parts[0]), int_or_zero(parts[1]), s, cs, 10)
    }
}

proof fn lemma_split_nonempty(s: Seq<char>, c: char)
    ensures
        split_seq(s, c).len() >= 1,
{
    lemma_next_index_of(s, c, 0);
}

fn parse_vtt_timestamp(ts: &[char]) -> (r: i64)
    ensures
        r == vtt_timestamp_ms(ts@),
{
    proof {
        lemma_next_index_of(ts@, '.', 0);
        lemma_next_index_of(ts@, ',', 0);
    }
    let p = find_char_from(ts, '.', 0);
    let (time_part, frac_part) = if p < ts.len() {
        (slice_vec(ts, 0, p), slice_vec(ts, p + 1, ts.len()))
    } else {
        let q = find_char_from(ts, ',', 0);
        if q < ts.len() {
            (slice_vec(ts, 0, q), slice_vec(ts, q + 1, ts.len()))
        } else {
            let mut zero: Vec<char> = Vec::new();
            zero.push('0');
            (slice_vec(ts, 0, ts.len()), zero)
        }
    };
    assert(ts@.subrange(0, ts@.len() as int) =~= ts@);
    assert((time_part@, frac_part@) == vtt_timestamp_parts(ts@)) by {
        if p < ts@.len() {
            assert(time_part@ =~= ts@.take(p as int));
            assert(frac_part@ =~= ts@.skip(p + 1));
        } else {
            let q = next_index_of(ts@, ',', 0);
            if q < ts@.len() {
                assert(time_part@ =~= ts@.take(q));
                assert(frac_part@ =~= ts@.skip(q + 1));
            } else {
                assert(frac_part@ =~= seq!['0']);
            }
        }
    }
    let ms = int_or_zero_exec(&frac_part);
    let comps = split_chars(&time_part, ':');
    let ghost cs = comps@.map_values(|v: Vec<char>| v@);
    if comps.len() == 3 {
        assert(cs[0] == comps@[0]@ && cs[1] == comps@[1]@ && cs[2] == comps@[2]@);
        let h = int_or_zero_exec(&comps[0]);
        let m = int_or_zero_exec(&comps[1]);
        let s = int_or_zero_exec(&comps[2]);
        clock_ms_exec(h, m, s, ms, 1)
    } else if comps.len() == 2 {
        assert(cs[0] == comps@[0]@ && cs[1] == comps@[1]@);
        let m = int_or_zero_exec(&comps[0]);
        let s = int_or_zero_exec(&comps[1]);
        clock_ms_exec(0, m, s, ms, 1)
    } else {
        0
    }
}

fn parse_ass_timestamp(ts: &[char]) -> (r: i64)
    ensures
        r == ass_timestamp_ms(ts@),
{
    let parts = split_chars(ts, ':');
    let ghost ps = parts@.map_values(|v: Vec<char>| v@);
    if parts.len() != 3 {
        return 0;
    }
    assert(ps[0] == parts@[0]@ && ps[1] == parts@[1]@ && ps[2] == parts@[2]@);
    let h = int_or_zero_exec(&parts[0]);
    let m = int_or_zero_exec(&parts[1]);
    let sec = split_chars(&parts[2], '.');
    let ghost ss = sec@.map_values(|v: Vec<char>| v@);
    proof {
        lemma_split_nonempty(parts@[2]@, '.');
    }
    assert(ss[0] == sec@[0]@);
    let s = int_or_zero_exec(&sec[0]);
    let cs = if sec.len() > 1 {
        assert(ss[1] == sec@[1]@);
        int_or_zero_exec(&sec[1])
    } else {
        0
    };
    clock_ms_exec(h, m, s, cs, 10)
}

// ---------------------------------------------------------------------------
// Markup removal
// ---------------------------------------------------------------------------

/// Removal of `<...>` tags (at least one character between the brackets, no
/// `>` inside), scanning left to right from `i`.
pub open spec fn strip_html_from(s: Seq<char>, i: int) -> Seq<char>
    decreases s.len() - i,
{
    if i < 0 || i >= s.len() {
        Seq::empty()
    } else {
        let g = next_index_of(s, '>', i + 1);
        if s[i] == '<' && g < s.len() && g > i + 1 {
            strip_html_from(s, g + 1)
        } else {
            seq![s[i]] + strip_html_from(s, i + 1)
        }
    }
}

/// Subtitle text without HTML tags, trimmed.
pub open spec fn strip_tags_spec(s: Seq<char>) -> Seq<char> {
    trim(strip_html_from(s, 0))
}

/// Removal of `{...}` override blocks, scanning left to right from `i`.
pub open spec fn strip_braces_from(s: Seq<char>, i: int) -> Seq<char>
    decreases s.len() - i,
{
    if i < 0 || i >= s.len() {
        Seq::empty()
    } else {
        let g = next_index_of(s, '}', i + 1);
        if s[i] == '{' && i < g < s.len() {
            strip_braces_from(s, g + 1)
        } else {
            seq![s[i]] + strip_braces_from(s, i + 1)
        }
    }
}

/// Replacement of each non-overlapping pair `a b` by `r`, left to right.
pub open spec fn replace_pair_from(s: Seq<char>, i: int, a: char, b: char, r: char) -> Seq<char>
    decreases s.len() - i,
{
    if i < 0 || i >= s.len() {
        Seq::empty()
    } else if i + 1 < s.len() && s[i] == a && s[i + 1] == b {
        seq![r] + replace_pair_from(s, i + 2, a, b, r)
    } else {
        seq![s[i]] + replace_pair_from(s, i + 1, a, b, r)
    }
}

/// ASS dialogue text: override blocks removed, `\N` and `\n` turned into line
/// breaks, trimmed.
pub open spec fn strip_ass_tags_spec(s: Seq<char>) -> Seq<char> {
    let no_blocks = strip_braces_from(s, 0);
    let upper_n = replace_pair_from(no_blocks, 0, '\\', 'N', '\n');
    trim(replace_pair_from(upper_n, 0, '\\', 'n', '\n'))
}

fn strip_html(s: &[char]) -> (r: Vec<char>)
    ensures
        r@ == strip_html_from(s@, 0),
{
    let mut r: Vec<char> = Vec::new();
    let mut i: usize = 0;
    while i < s.len()
        invariant
            i <= s@.len(),
            r@ + strip_html_from(s@, i as int) == strip_html_from(s@, 0),
        decreases s.len() - i,
    {
        let ghost before = r@;
        if s[i] == '<' && i + 1 <= s.len() {
            proof {
                lemma_next_index_of(s@, '>', i + 1);
            }
            let g = find_char_from(s, '>', i + 1);
            if g < s.len() && g > i + 1 {
                i = g + 1;
                continue;
            }
        }
        proof {
            lemma_next_index_of(s@, '>', i + 1);
        }
        r.push(s[i]);
        assert(r@ + strip_html_from(s@, i + 1) =~= before + strip_html_from(s@, i as int));
        i += 1;
    }
    assert(strip_html_from(s@, i as int) =~= Seq::<char>::empty());
    assert(r@ =~= r@ + Seq::<char>::empty());
    r
}

fn strip_tags(s: &[char]) -> (r: Vec<char>)
    ensures
        r@ == strip_tags_spec(s@),
{
    let h = strip_html(s);
    trim_chars(&h)
}

fn strip_braces(s: &[char]) -> (r: Vec<char>)
    ensures
        r@ == strip_braces_from(s@, 0),
{
    let mut r: Vec<char> = Vec::new();
    let mut i: usize = 0;
    while i < s.len()
        invariant
            i <= s@.len(),
            r@ + strip_braces_from(s@, i as int) == strip_braces_from(s@, 0),
        decreases s.len() - i,
    {
        let ghost before = r@;
        if s[i] == '{' {
            proof {
                lemma_next_index_of(s@, '}', i + 1);
            }
            let g = find_char_from(s, '}', i + 1);
            if g < s.len() {
                i = g + 1;
                continue;
            }
        }
        r.push(s[i]);
        assert(r@ + strip_braces_from(s@, i + 1) =~= before + strip_braces_from(s@, i as int));
        i += 1;
    }
    assert(strip_braces_from(s@, i as int) =~= Seq::<char>::empty());
    assert(r@ =~= r@ + Seq::<char>::empty());
    r
}

fn replace_pair(s: &[char], a: char, b: char, with: char) -> (r: Vec<char>)
    ensures
        r@ == replace_pair_from(s@, 0, a, b, with),
{
    let mut r: Vec<char> = Vec::new();
    let mut i: usize = 0;
    while i < s.len()
        invariant
            i <= s@.len(),
            r@ + replace_pair_from(s@, i as int, a, b, with) == replace_pair_from(s@, 0, a, b, with),
        decreases s.len() - i,
    {
        let ghost before = r@;
        if i + 1 < s.len() && s[i] == a && s[i + 1] == b {
            r.push(with);
            assert(r@ + replace_pair_from(s@, i + 2, a, b, with) =~= before + replace_pair_from(
                s@,
                i as int,
                a,
                b,
                with,
            ));
            i += 2;
        } else {
            r.push(s[i]);
            assert(r@ + replace_pair_from(s@, i + 1, a, b, with) =~= before + replace_pair_from(
                s@,
                i as int,
                a,
                b,
                with,
            ));
            i += 1;
        }
    }
    assert(replace_pair_from(s@, i as int, a, b, with) =~= Seq::<char>::empty());
    assert(r@ =~= r@ + Seq::<char>::empty());
    r
}

fn strip_ass_tags(s: &[char]) -> (r: Vec<char>)
    ensures
        r@ == strip_ass_tags_spec(s@),
{
    let a = strip_braces(s);
    let b = replace_pair(&a, '\\', 'N', '\n');
    let c = replace_pair(&b, '\\', 'n', '\n');
    trim_chars(&c)
}

// ---------------------------------------------------------------------------
// Normalization for matching
// ---------------------------------------------------------------------------

/// The punctuation that matching ignores.
pub open spec fn is_ignored_punct(c: char) -> bool {
    c == '。' || c == '、' || c == '！' || c == '？' || c == '「' || c == '」' || c == '『' || c == '』'
        || c == '（' || c == '）' || c == '【' || c == '】' || c == '・' || c == '…' || c == '―' || c
        == '.' || c == ',' || c == '!' || c == '?' || c == '"' || c == '\'' || c == '(' || c == ')'
        || c == '\u{3000}'
}

/// Whether matching keeps a character.
pub open spec fn kept_for_matching(c: char) -> bool {
    !is_ws(c) && !is_ignored_punct(c)
}

/// Japanese text reduced for fuzzy matching: whitespace and the punctuation
/// of [`is_ignored_punct`] removed.
pub open spec fn normalize_japanese_spec(s: Seq<char>) -> Seq<char> {
    s.filter(|c: char| kept_for_matching(c))
}

/// Removes whitespace and common Japanese and ASCII punctuation, for fuzzy
/// matching.
pub fn normalize_japanese(text: &str) -> (r: String)
    ensures
        r@ == normalize_japanese_spec(text@),
{
    let v = chars_of(text);
    let n = normalize_chars(&v);
    string_of(&n)
}

fn normalize_chars(s: &[char]) -> (r: Vec<char>)
    ensures
        r@ == normalize_japanese_spec(s@),
{
    let mut r: Vec<char> = Vec::new();
    let mut i: usize = 0;
    while i < s.len()
        invariant
            i <= s@.len(),
            r@ == normalize_japanese_spec(s@.take(i as int)),
        decreases s.len() - i,
    {
        let c = s[i];
        let keep = !char_is_ws(c) && !(c == '。' || c == '、' || c == '！' || c == '？' || c == '「'
            || c == '」' || c == '『' || c == '』' || c == '（' || c == '）' || c == '【' || c == '】'
            || c == '・' || c == '…' || c == '―' || c == '.' || c == ',' || c == '!' || c == '?'
            || c == '"' || c == '\'' || c == '(' || c == ')' || c == '\u{3000}');
        proof {
            let t = s@.take(i + 1);
            assert(t.drop_last() =~= s@.take(i as int));
            assert(t.last() == c);
            reveal(Seq::filter);
        }
        if keep {
            r.push(c);
        }
        i += 1;
    }
    assert(s@.take(s@.len() as int) =~= s@);
    r
}

// ---------------------------------------------------------------------------
// Cue timing lines
// ---------------------------------------------------------------------------

/// `n` ASCII digits at `p`.
pub open spec fn digits_at(s: Seq<char>, p: int, n: int) -> bool {
    &&& 0 <= p
    &&& p + n <= s.len()
    &&& forall|k: int| p <= k < p + n ==> is_digit(#[trigger] s[k])
}

/// The length of the run of ASCII digits that starts at `p`.
pub open spec fn digit_run(s: Seq<char>, p: int) -> int
    decreases s.len() - p,
{
    if 0 <= p < s.len() && is_digit(s[p]) {
        1 + digit_run(s, p + 1)
    } else {
        0
    }
}

/// `MM:SS.mmm` (or with a comma) at `p`: nine characters.
pub open spec fn clock_tail_at(s: Seq<char>, p: int) -> bool {
    &&& digits_at(s, p, 2)
    &&& p + 9 <= s.len()
    &&& s[p + 2] == ':'
    &&& digits_at(s, p + 3, 2)
    &&& (s[p + 5] == '.' || s[p + 5] == ',')
    &&& digits_at(s, p + 6, 3)
}

/// The end of a WebVTT timestamp at `p` when nothing has to follow it: the
/// hour field (all the digits up to a `:`) is taken when it fits, else the
/// `MM:SS.mmm` form.
pub open spec fn vtt_clock_end(s: Seq<char>, p: int) -> Option<int> {
    let r = digit_run(s, p);
    if r >= 1 && p + r < s.len() && s[p + r] == ':' && clock_tail_at(s, p + r + 1) {
        Some(p + r + 10)
    } else if clock_tail_at(s, p) {
        Some(p + 9)
    } else {
        None
    }
}

/// The first index at or after `i` that is not whitespace.
pub open spec fn skip_ws(s: Seq<char>, i: int) -> int
    decreases s.len() - i,
{
    if 0 <= i < s.len() && is_ws(s[i]) {
        skip_ws(s, i + 1)
    } else {
        i
    }
}

/// `-->` at `q`.
pub open spec fn arrow_at(s: Seq<char>, q: int) -> bool {
    0 <= q && q + 3 <= s.len() && s[q] == '-' && s[q + 1] == '-' && s[q + 2] == '>'
}

/// After a first WebVTT timestamp ending at `e`: optional whitespace, `-->`,
/// optional whitespace and a second timestamp, whose span is returned.
pub open spec fn vtt_second(s: Seq<char>, e: int) -> Option<(int, int)> {
    let q1 = skip_ws(s, e);
    if arrow_at(s, q1) {
        let q2 = skip_ws(s, q1 + 3);
        match vtt_clock_end(s, q2) {
            Some(e2) => Some((q2, e2)),
            None => None,
        }
    } else {
        None
    }
}

/// The spans of the two timestamps of a WebVTT timing line matched at `p`,
/// preferring the hour form of the first timestamp.
pub open spec fn vtt_match_at(s: Seq<char>, p: int) -> Option<(int, int, int, int)> {
    let r = digit_run(s, p);
    if r >= 1 && p + r < s.len() && s[p + r] == ':' && clock_tail_at(s, p + r + 1) && vtt_second(
        s,
        p + r + 10,
    ) is Some {
        let (q, e) = vtt_second(s, p + r + 10)->0;
        Some((p, p + r + 10, q, e))
    } else if clock_tail_at(s, p) && vtt_second(s, p + 9) is Some {
        let (q, e) = vtt_second(s, p + 9)->0;
        Some((p, p + 9, q, e))
    } else {
        None
    }
}

/// The leftmost WebVTT timing match at or after `p`.
pub open spec fn vtt_match_from(s: Seq<char>, p: int) -> Option<(int, int, int, int)>
    decreases s.len() + 1 - p,
{
    if p < 0 || p > s.len() {
        None
    } else {
        match vtt_match_at(s, p) {
            Some(m) => Some(m),
            None => vtt_match_from(s, p + 1),
        }
    }
}

/// Start and end of a WebVTT timing line (`HH:MM:SS.mmm --> HH:MM:SS.mmm`,
/// hours optional, anywhere in the line).
pub open spec fn vtt_cue_times(line: Seq<char>) -> Option<(i64, i64)> {
    match vtt_match_from(line, 0) {
        Some((a, b, c, d)) => Some(
            (vtt_timestamp_ms(line.subrange(a, b)), vtt_timestamp_ms(line.subrange(c, d))),
        ),
        None => None,
    }
}

/// `HH:MM:SS.mmm` (or with a comma) at `p`: twelve characters.
pub open spec fn srt_clock_at(s: Seq<char>, p: int) -> bool {
    digits_at(s, p, 2) && p + 12 <= s.len() && s[p + 2] == ':' && clock_tail_at(s, p + 3)
}

/// The start of the second timestamp of an SRT timing line whose first
/// timestamp ends at `e`.
pub open spec fn srt_second(s: Seq<char>, e: int) -> Option<int> {
    let q1 = skip_ws(s, e);
    if arrow_at(s, q1) {
        let q2 = skip_ws(s, q1 + 3);
        if srt_clock_at(s, q2) {
            Some(q2)
        } else {
            None
        }
    } else {
        None
    }
}

/// The starts of the two timestamps of an SRT timing line matched at `p`.
pub open spec fn srt_match_at(s: Seq<char>, p: int) -> Option<(int, int)> {
    if srt_clock_at(s, p) && srt_second(s, p + 12) is Some {
        Some((p, srt_second(s, p + 12)->0))
    } else {
        None
    }
}

/// The leftmost SRT timing match at or after `p`.
pub open spec fn srt_match_from(s: Seq<char>, p: int) -> Option<(int, int)>
    decreases s.len() + 1 - p,
{
    if p < 0 || p > s.len() {
        None
    } else {
        match srt_match_at(s, p) {
            Some(m) => Some(m),
            None => srt_match_from(s, p + 1),
        }
    }
}

/// Start and end of an SRT timing line (`HH:MM:SS,mmm --> HH:MM:SS,mmm`,
/// anywhere in the line).
pub open spec fn srt_cue_times(line: Seq<char>) -> Option<(i64, i64)> {
    match srt_match_from(line, 0) {
        Some((a, c)) => Some(
            (vtt_timestamp_ms(line.subrange(a, a + 12)), vtt_timestamp_ms(line.subrange(c, c + 12))),
        ),
        None => None,
    }
}

fn digit_run_exec(s: &[char], p: usize) -> (r: usize)
    requires
        p <= s@.len(),
    ensures
        r == digit_run(s@, p as int),
        p + r <= s@.len(),
        digits_at(s@, p as int, r as int),
{
    let mut q = p;
    while q < s.len() && '0' <= s[q] && s[q] <= '9'
        invariant
            p <= q <= s@.len(),
            digit_run(s@, p as int) == (q - p) + digit_run(s@, q as int),
            forall|k: int| p <= k < q ==> is_digit(#[trigger] s@[k]),
        decreases s.len() - q,
    {
        q += 1;
    }
    q - p
}

fn digits_at_exec(s: &[char], p: usize, n: usize) -> (r: bool)
    requires
        p + n <= s@.len(),
    ensures
        r == digits_at(s@, p as int, n as int),
{
    let len = s.len();
    assert(len == s@.len());
    let mut k: usize = 0;
    while k < n
        invariant
            p + n <= s@.len(),
            len == s@.len(),
            k <= n,
            forall|t: int| p <= t < p + k ==> is_digit(#[trigger] s@[t]),
        decreases n - k,
    {
        if !('0' <= s[p + k] && s[p + k] <= '9') {
            return false;
        }
        k += 1;
    }
    true
}

fn clock_tail_exec(s: &[char], p: usize) -> (r: bool)
    requires
        p <= s@.len(),
    ensures
        r == clock_tail_at(s@, p as int),
{
    if s.len() - p < 9 {
        return false;
    }
    digits_at_exec(s, p, 2) && s[p + 2] == ':' && digits_at_exec(s, p + 3, 2) && (s[p + 5] == '.'
        || s[p + 5] == ',') && digits_at_exec(s, p + 6, 3)
}

fn vtt_clock_end_exec(s: &[char], p: usize) -> (r: Option<usize>)
    requires
        p <= s@.len(),
    ensures
        match r {
            Some(e) => vtt_clock_end(s@, p as int) == Some(e as int),
            None => vtt_clock_end(s@, p as int) is None,
        },
        r matches Some(e) ==> p <= e <= s@.len(),
{
    let n = s.len();
    assert(n == s@.len());
    let r = digit_run_exec(s, p);
    if r >= 1 && p + r < s.len() && s[p + r] == ':' && clock_tail_exec(s, p + r + 1) {
        Some(p + r + 10)
    } else if clock_tail_exec(s, p) {
        Some(p + 9)
    } else {
        None
    }
}

fn skip_ws_exec(s: &[char], i: usize) -> (r: usize)
    requires
        i <= s@.len(),
    ensures
        r == skip_ws(s@, i as int),
        i <= r <= s@.len(),
{
    let n = s.len();
    assert(n == s@.len());
    let mut q = i;
    while q < s.len() && char_is_ws(s[q])
        invariant
            i <= q <= s@.len(),
            skip_ws(s@, i as int) == skip_ws(s@, q as int),
        decreases s.len() - q,
    {
        q += 1;
    }
    q
}

fn arrow_exec(s: &[char], q: usize) -> (r: bool)
    requires
        q <= s@.len(),
    ensures
        r == arrow_at(s@, q as int),
{
    s.len() - q >= 3 && s[q] == '-' && s[q + 1] == '-' && s[q + 2] == '>'
}

fn vtt_second_exec(s: &[char], e: usize) -> (r: Option<(usize, usize)>)
    requires
        e <= s@.len(),
    ensures
        match r {
            Some((q, f)) => vtt_second(s@, e as int) == Some((q as int, f as int)),
            None => vtt_second(s@, e as int) is None,
        },
        r matches Some((q, f)) ==> e <= q <= f <= s@.len(),
{
    let n = s.len();
    assert(n == s@.len());
    let q1 = skip_ws_exec(s, e);
    if arrow_exec(s, q1) {
        let q2 = skip_ws_exec(s, q1 + 3);
        match vtt_clock_end_exec(s, q2) {
            Some(e2) => Some((q2, e2)),
            None => None,
        }
    } else {
        None
    }
}

fn vtt_match_at_exec(s: &[char], p: usize) -> (r: Option<(usize, usize, usize, usize)>)
    requires
        p <= s@.len(),
    ensures
        match r {
            Some((a, b, c, d)) => vtt_match_at(s@, p as int) == Some(
                (a as int, b as int, c as int, d as int),
            ),
            None => vtt_match_at(s@, p as int) is None,
        },
        r matches Some((a, b, c, d)) ==> a <= b <= c <= d <= s@.len(),
{
    let n = s.len();
    assert(n == s@.len());
    let r = digit_run_exec(s, p);
    if r >= 1 && p + r < s.len() && s[p + r] == ':' && clock_tail_exec(s, p + r + 1) {
        if let Some((q, e)) = vtt_second_exec(s, p + r + 10) {
            return Some((p, p + r + 10, q, e));
        }
    }
    if clock_tail_exec(s, p) {
        if let Some((q, e)) = vtt_second_exec(s, p + 9) {
            return Some((p, p + 9, q, e));
        }
    }
    None
}

fn vtt_cue_times_exec(line: &[char]) -> (r: Option<(i64, i64)>)
    ensures
        r == vtt_cue_times(line@),
{
    let mut p: usize = 0;
    while p <= line.len()
        invariant
            p <= line@.len() + 1,
            vtt_match_from(line@, 0) == vtt_match_from(line@, p as int),
        decreases line@.len() + 1 - p,
    {
        if let Some((a, b, c, d)) = vtt_match_at_exec(line, p) {
            let first = slice_vec(line, a, b);
            let second = slice_vec(line, c, d);
            return Some((parse_vtt_timestamp(&first), parse_vtt_timestamp(&second)));
        }
        if p == line.len() {
            assert(vtt_match_from(line@, p + 1) == None::<(int, int, int, int)>);
            return None;
        }
        p += 1;
    }
    None
}

fn srt_clock_exec(s: &[char], p: usize) -> (r: bool)
    requires
        p <= s@.len(),
    ensures
        r == srt_clock_at(s@, p as int),
{
    s.len() - p >= 12 && digits_at_exec(s, p, 2) && s[p + 2] == ':' && clock_tail_exec(s, p + 3)
}

fn srt_second_exec(s: &[char], e: usize) -> (r: Option<usize>)
    requires
        e <= s@.len(),
    ensures
        match r {
            Some(q) => srt_second(s@, e as int) == Some(q as int),
            None => srt_second(s@, e as int) is None,
        },
        r matches Some(q) ==> e <= q && q + 12 <= s@.len(),
{
    let n = s.len();
    assert(n == s@.len());
    let q1 = skip_ws_exec(s, e);
    if arrow_exec(s, q1) {
        let q2 = skip_ws_exec(s, q1 + 3);
        if srt_clock_exec(s, q2) {
            Some(q2)
        } else {
            None
        }
    } else {
        None
    }
}

fn srt_cue_times_exec(line: &[char]) -> (r: Option<(i64, i64)>)
    ensures
        r == srt_cue_times(line@),
{
    let mut p: usize = 0;
    while p <= line.len()
        invariant
            p <= line@.len() + 1,
            srt_match_from(line@, 0) == srt_match_from(line@, p as int),
        decreases line@.len() + 1 - p,
    {
        if srt_clock_exec(line, p) {
            if let Some(c) = srt_second_exec(line, p + 12) {
                let first = slice_vec(line, p, p + 12);
                let second = slice_vec(line, c, c + 12);
                return Some((parse_vtt_timestamp(&first), parse_vtt_timestamp(&second)));
            }
        }
        if p == line.len() {
            assert(srt_match_from(line@, p + 1) == None::<(int, int)>);
            return None;
        }
        p += 1;
    }
    None
}

// ---------------------------------------------------------------------------
// Readers: WebVTT and SRT
// ---------------------------------------------------------------------------

/// The end of a cue's text block that starts at line `i`: the first blank line
/// (blank once trimmed) at or after `i`, or the end.
pub open spec fn block_end(ls: Seq<Seq<char>>, i: int) -> int
    decreases ls.len() - i,
{
    if 0 <= i < ls.len() && trim(ls[i]).len() > 0 {
        block_end(ls, i + 1)
    } else {
        i
    }
}

pub proof fn lemma_block_end(ls: Seq<Seq<char>>, i: int)
    requires
        0 <= i <= ls.len(),
    ensures
        i <= block_end(ls, i) <= ls.len(),
    decreases ls.len() - i,
{
    if i < ls.len() && trim(ls[i]).len() > 0 {
        lemma_block_end(ls, i + 1);
    }
}

/// The text of a cue whose lines are `ls[a..b]`: the trimmed lines joined by
/// line breaks, with HTML tags removed and the result trimmed.
pub open spec fn block_text(ls: Seq<Seq<char>>, a: int, b: int) -> Seq<char> {
    strip_tags_spec(join_seq(ls.subrange(a, b).map_values(|l: Seq<char>| trim(l)), seq!['\n']))
}

/// A cue, kept only when its text is not empty.
pub open spec fn cue_if_text(start: i64, end: i64, text: Seq<char>) -> Seq<Cue> {
    if text.len() > 0 {
        seq![(start, end, text)]
    } else {
        Seq::empty()
    }
}

/// The WebVTT cues of the lines from `i` on: a line holding a timing line
/// starts a cue whose text is the following block of non-blank lines.
pub open spec fn vtt_cues_from(ls: Seq<Seq<char>>, i: int) -> Seq<Cue>
    decreases ls.len() - i,
{
    if i < 0 || i >= ls.len() {
        Seq::empty()
    } else {
        match vtt_cue_times(trim(ls[i])) {
            Some((start, end)) => {
                proof {
                    lemma_block_end(ls, i + 1);
                }
                let j = block_end(ls, i + 1);
                cue_if_text(start, end, block_text(ls, i + 1, j)) + vtt_cues_from(ls, j)
            },
            None => vtt_cues_from(ls, i + 1),
        }
    }
}

/// The cues of a WebVTT document.
pub open spec fn vtt_cues(content: Seq<char>) -> Seq<Cue> {
    vtt_cues_from(lines_seq(content), 0)
}

/// The SRT cues of the lines from `i` on: a line holding a number is followed
/// by a timing line and a block of text lines.
pub open spec fn srt_cues_from(ls: Seq<Seq<char>>, i: int) -> Seq<Cue>
    decreases ls.len() - i,
{
    if i < 0 || i >= ls.len() {
        Seq::empty()
    } else if parse_u32_spec(trim(ls[i])) is Some {
        if i + 1 >= ls.len() {
            Seq::empty()
        } else {
            match srt_cue_times(trim(ls[i + 1])) {
                Some((start, end)) => {
                    proof {
                        lemma_block_end(ls, i + 2);
                    }
                    let j = block_end(ls, i + 2);
                    cue_if_text(start, end, block_text(ls, i + 2, j)) + srt_cues_from(ls, j)
                },
                None => srt_cues_from(ls, i + 2),
            }
        }
    } else {
        srt_cues_from(ls, i + 1)
    }
}

/// The cues of an SRT document.
pub open spec fn srt_cues(content: Seq<char>) -> Seq<Cue> {
    srt_cues_from(lines_seq(content), 0)
}

/// The plain content of the readers' working list.
pub open spec fn cues_of(v: Seq<(i64, i64, Vec<char>)>) -> Seq<Cue> {
    v.map_values(|c: (i64, i64, Vec<char>)| (c.0, c.1, c.2@))
}

/// Reads the text block that starts at line `from`; gives its text and the
/// line where it ends.
fn read_block(ls: &Vec<Vec<char>>, from: usize) -> (r: (Vec<char>, usize))
    requires
        from <= ls@.len(),
    ensures
        r.1 == block_end(ls@.map_values(|v: Vec<char>| v@), from as int),
        r.0@ == block_text(ls@.map_values(|v: Vec<char>| v@), from as int, r.1 as int),
        from <= r.1 <= ls@.len(),
{
    let ghost m = ls@.map_values(|v: Vec<char>| v@);
    let mut parts: Vec<Vec<char>> = Vec::new();
    let mut j = from;
    while j < ls.len() && !is_blank(&ls[j])
        invariant
            from <= j <= ls@.len(),
            m == ls@.map_values(|v: Vec<char>| v@),
            block_end(m, from as int) == block_end(m, j as int),
            parts@.map_values(|v: Vec<char>| v@) == m.subrange(from as int, j as int).map_values(
                |l: Seq<char>| trim(l),
            ),
        decreases ls.len() - j,
    {
        assert(m[j as int] == ls@[j as int]@);
        let t = trim_chars(&ls[j]);
        let ghost before = parts@.map_values(|v: Vec<char>| v@);
        parts.push(t);
        assert(parts@.map_values(|v: Vec<char>| v@) =~= before.push(trim(m[j as int])));
        assert(m.subrange(from as int, j + 1).map_values(|l: Seq<char>| trim(l)) =~= m.subrange(
            from as int,
            j as int,
        ).map_values(|l: Seq<char>| trim(l)).push(trim(m[j as int])));
        j += 1;
    }
    proof {
        if j < ls@.len() {
            assert(m[j as int] == ls@[j as int]@);
        }
    }
    let mut nl: Vec<char> = Vec::new();
    nl.push('\n');
    assert(nl@ =~= seq!['\n']);
    let joined = join_chars(&parts, &nl);
    let text = strip_tags(&joined);
    (text, j)
}

/// Numbers the cues 0, 1, 2, ... into a track.
fn number_cues(cues: &Vec<(i64, i64, Vec<char>)>) -> (track: SubtitleTrack)
    ensures
        track_is(track, cues_of(cues@)),
{
    let mut lines: Vec<SubtitleLine> = Vec::new();
    let mut i: usize = 0;
    while i < cues.len()
        invariant
            i <= cues@.len(),
            lines@.len() == i,
            forall|k: int|
                0 <= k < i ==> {
                    &&& (#[trigger] lines@[k]).index == k
                    &&& lines@[k].start_ms == cues@[k].0
                    &&& lines@[k].end_ms == cues@[k].1
                    &&& lines@[k].text@ == cues@[k].2@
                },
        decreases cues.len() - i,
    {
        let c = &cues[i];
        lines.push(SubtitleLine { index: i, start_ms: c.0, end_ms: c.1, text: string_of(&c.2) });
        i += 1;
    }
    SubtitleTrack { lines }
}

/// Reads a WebVTT document.
pub fn parse_vtt(content: &str) -> (track: SubtitleTrack)
    ensures
        track_is(track, vtt_cues(content@)),
{
    let chars = chars_of(content);
    let raw = lines_chars(&chars);
    let ghost ls = raw@.map_values(|v: Vec<char>| v@);
    let mut cues: Vec<(i64, i64, Vec<char>)> = Vec::new();
    let mut i: usize = 0;
    while i < raw.len()
        invariant
            i <= raw@.len(),
            ls == raw@.map_values(|v: Vec<char>| v@),
            cues_of(cues@) + vtt_cues_from(ls, i as int) == vtt_cues_from(ls, 0),
        decreases raw.len() - i,
    {
        assert(ls[i as int] == raw@[i as int]@);
        let line = trim_chars(&raw[i]);
        match vtt_cue_times_exec(&line) {
            Some((start, end)) => {
                let (text, j) = read_block(&raw, i + 1);
                let ghost before = cues_of(cues@);
                let ghost added = cue_if_text(start, end, block_text(ls, i + 1, j as int));
                if text.len() > 0 {
                    cues.push((start, end, text));
                }
                assert(cues_of(cues@) =~= before + added);
                assert(before + added + vtt_cues_from(ls, j as int) =~= before + (added
                    + vtt_cues_from(ls, j as int)));
                i = j;
            },
            None => {
                i += 1;
            },
        }
    }
    assert(vtt_cues_from(ls, i as int) =~= Seq::<Cue>::empty());
    assert(cues_of(cues@) + Seq::<Cue>::empty() =~= cues_of(cues@));
    number_cues(&cues)
}

/// Reads an SRT document.
pub fn parse_srt(content: &str) -> (track: SubtitleTrack)
    ensures
        track_is(track, srt_cues(content@)),
{
    let chars = chars_of(content);
    let raw = lines_chars(&chars);
    let ghost ls = raw@.map_values(|v: Vec<char>| v@);
    let mut cues: Vec<(i64, i64, Vec<char>)> = Vec::new();
    let mut i: usize = 0;
    while i < raw.len()
        invariant
            i <= raw@.len(),
            ls == raw@.map_values(|v: Vec<char>| v@),
            ls == lines_seq(content@),
            cues_of(cues@) + srt_cues_from(ls, i as int) == srt_cues_from(ls, 0),
        decreases raw.len() - i,
    {
        assert(ls[i as int] == raw@[i as int]@);
        let line = trim_chars(&raw[i]);
        if parse_u32(&line).is_some() {
            if i + 1 >= raw.len() {
                assert(srt_cues_from(ls, i as int) =~= Seq::<Cue>::empty());
                assert(cues_of(cues@) + Seq::<Cue>::empty() =~= cues_of(cues@));
                return number_cues(&cues);
            }
            assert(ls[i + 1] == raw@[i + 1]@);
            let ts_line = trim_chars(&raw[i + 1]);
            match srt_cue_times_exec(&ts_line) {
                Some((start, end)) => {
                    let (text, j) = read_block(&raw, i + 2);
                    let ghost before = cues_of(cues@);
                    let ghost added = cue_if_text(start, end, block_text(ls, i + 2, j as int));
                    if text.len() > 0 {
                        cues.push((start, end, text));
                    }
                    assert(cues_of(cues@) =~= before + added);
                    assert(before + added + srt_cues_from(ls, j as int) =~= before + (added
                        + srt_cues_from(ls, j as int)));
                    i = j;
                },
                None => {
                    i += 2;
                },
            }
        } else {
            i += 1;
        }
    }
    assert(srt_cues_from(ls, i as int) =~= Seq::<Cue>::empty());
    assert(cues_of(cues@) + Seq::<Cue>::empty() =~= cues_of(cues@));
    number_cues(&cues)
}

// ---------------------------------------------------------------------------
// Reader: ASS/SSA
// ---------------------------------------------------------------------------

/// The position of the first field named `name` at or after `k`.
pub open spec fn field_position_from(fields: Seq<Seq<char>>, name: Seq<char>, k: int) -> Option<
    int,
>
    decreases fields.len() - k,
{
    if k < 0 || k >= fields.len() {
        None
    } else if fields[k] == name {
        Some(k)
    } else {
        field_position_from(fields, name, k + 1)
    }
}

/// The position of the first field named `name`.
pub open spec fn field_position(fields: Seq<Seq<char>>, name: Seq<char>) -> Option<int> {
    field_position_from(fields, name, 0)
}

/// The field names of a `Format:` line (what follows the prefix): split at
/// commas, each trimmed.
pub open spec fn format_fields(rest: Seq<char>) -> Seq<Seq<char>> {
    split_seq(rest, ',').map_values(|f: Seq<char>| trim(f))
}

/// The cue of a `Dialogue:` line (what follows the prefix) under the given
/// format: the line is split into as many comma-separated parts as there are
/// fields, the last part keeping its commas.
pub open spec fn ass_dialogue(fields: Seq<Seq<char>>, rest: Seq<char>) -> Seq<Cue> {
    let ti = field_position(fields, "Text"@);
    let si = field_position(fields, "Start"@);
    let ei = field_position(fields, "End"@);
    if ti is Some && si is Some && ei is Some {
        let parts = splitn_seq(rest, fields.len(), ',');
        if parts.len() >= fields.len() {
            cue_if_text(
                ass_timestamp_ms(trim(parts[si->0])),
                ass_timestamp_ms(trim(parts[ei->0])),
                strip_ass_tags_spec(trim(parts[ti->0])),
            )
        } else {
            Seq::empty()
        }
    } else {
        Seq::empty()
    }
}

/// The ASS cues of the lines from `i` on, in file order. `in_events` tells
/// whether the `[Events]` section has begun; `fields` is the last format.
/// The next section header after `[Events]` ends the reading.
pub open spec fn ass_cues_from(ls: Seq<Seq<char>>, i: int, in_events: bool, fields: Seq<Seq<char>>) -> Seq<
    Cue,
>
    decreases ls.len() - i,
{
    if i < 0 || i >= ls.len() {
        Seq::empty()
    } else {
        let line = trim(ls[i]);
        if eq_ignore_case(line, "[Events]"@) {
            ass_cues_from(ls, i + 1, true, fields)
        } else if in_events && line.len() > 0 && line[0] == '[' {
            Seq::empty()
        } else if in_events && has_prefix(line, "Format:"@) {
            ass_cues_from(ls, i + 1, true, format_fields(line.skip(7)))
        } else if in_events && has_prefix(line, "Dialogue:"@) {
            ass_dialogue(fields, line.skip(9)) + ass_cues_from(ls, i + 1, true, fields)
        } else {
            ass_cues_from(ls, i + 1, in_events, fields)
        }
    }
}

/// The cues of an ASS/SSA document, in file order.
pub open spec fn ass_cues(content: Seq<char>) -> Seq<Cue> {
    ass_cues_from(lines_seq(content), 0, false, Seq::empty())
}

/// `c` placed into `sorted` after every cue that starts no later than it.
pub open spec fn insert_by_start(sorted: Seq<Cue>, c: Cue) -> Seq<Cue>
    decreases sorted.len(),
{
    if sorted.len() == 0 {
        seq![c]
    } else if sorted.last().0 <= c.0 {
        sorted.push(c)
    } else {
        insert_by_start(sorted.drop_last(), c).push(sorted.last())
    }
}

/// The cues ordered by start time, cues with equal starts keeping their order
/// (a stable sort by start).
pub open spec fn sort_by_start(s: Seq<Cue>) -> Seq<Cue>
    decreases s.len(),
{
    if s.len() == 0 {
        Seq::empty()
    } else {
        insert_by_start(sort_by_start(s.drop_last()), s.last())
    }
}

/// Whether the cues are ordered by start time.
pub open spec fn starts_ordered(s: Seq<Cue>) -> bool {
    forall|i: int, j: int| 0 <= i < j < s.len() ==> #[trigger] s[i].0 <= #[trigger] s[j].0
}

proof fn lemma_insert_at(s: Seq<Cue>, c: Cue, k: int)
    requires
        0 <= k <= s.len(),
        forall|j: int| k <= j < s.len() ==> #[trigger] s[j].0 > c.0,
        k == 0 || s[k - 1].0 <= c.0,
    ensures
        insert_by_start(s, c) == s.insert(k, c),
    decreases s.len(),
{
    if s.len() == 0 {
        assert(s.insert(k, c) =~= seq![c]);
    } else if s.last().0 <= c.0 {
        assert(s.insert(k, c) =~= s.push(c));
    } else {
        lemma_insert_at(s.drop_last(), c, k);
        assert(s.drop_last().insert(k, c).push(s.last()) =~= s.insert(k, c));
    }
}

proof fn lemma_insert_keeps_order(s: Seq<Cue>, c: Cue)
    requires
        starts_ordered(s),
    ensures
        starts_ordered(insert_by_start(s, c)),
        insert_by_start(s, c).len() == s.len() + 1,
        forall|j: int|
            0 <= j < insert_by_start(s, c).len() ==> #[trigger] insert_by_start(s, c)[j].0 == c.0
                || exists|t: int| 0 <= t < s.len() && s[t].0 == insert_by_start(s, c)[j].0,
    decreases s.len(),
{
    if s.len() == 0 {
    } else if s.last().0 <= c.0 {
        let r = s.push(c);
        assert forall|j: int| 0 <= j < r.len() implies r[j].0 == c.0 || exists|t: int|
            0 <= t < s.len() && s[t].0 == r[j].0 by {
            if j < s.len() {
                assert(s[j].0 == r[j].0);
            }
        }
    } else {
        let d = s.drop_last();
        lemma_insert_keeps_order(d, c);
        let m = insert_by_start(d, c);
        let r = m.push(s.last());
        assert forall|i: int, j: int| 0 <= i < j < r.len() implies #[trigger] r[i].0
            <= #[trigger] r[j].0 by {
            if j == r.len() - 1 {
                if m[i].0 == c.0 {
                } else {
                    let t = choose|t: int| 0 <= t < d.len() && d[t].0 == m[i].0;
                    assert(s[t].0 <= s[s.len() - 1].0);
                }
            } else {
                assert(r[i] == m[i] && r[j] == m[j]);
            }
        }
        assert forall|j: int| 0 <= j < r.len() implies r[j].0 == c.0 || exists|t: int|
            0 <= t < s.len() && s[t].0 == r[j].0 by {
            if j == r.len() - 1 {
                assert(s[s.len() - 1].0 == r[j].0);
            } else {
                assert(r[j] == m[j]);
                if m[j].0 != c.0 {
                    let t = choose|t: int| 0 <= t < d.len() && d[t].0 == m[j].0;
                    assert(s[t] == d[t]);
                }
            }
        }
    }
}

/// A stable sort by start leaves the cues ordered by start.
pub proof fn lemma_sort_by_start_ordered(s: Seq<Cue>)
    ensures
        starts_ordered(sort_by_start(s)),
        sort_by_start(s).len() == s.len(),
    decreases s.len(),
{
    if s.len() > 0 {
        lemma_sort_by_start_ordered(s.drop_last());
        lemma_insert_keeps_order(sort_by_start(s.drop_last()), s.last());
    }
}

/// Inserts a cue after every cue of `sorted` that starts no later than it.
fn insert_cue(sorted: &mut Vec<(i64, i64, Vec<char>)>, c: (i64, i64, Vec<char>))
    ensures
        cues_of(final(sorted)@) == insert_by_start(cues_of(old(sorted)@), (c.0, c.1, c.2@)),
{
    let ghost cue = (c.0, c.1, c.2@);
    let ghost s = cues_of(sorted@);
    let mut k = sorted.len();
    while k > 0 && sorted[k - 1].0 > c.0
        invariant
            k <= sorted@.len(),
            s == cues_of(sorted@),
            forall|j: int| k <= j < sorted@.len() ==> #[trigger] s[j].0 > c.0,
        decreases k,
    {
        k -= 1;
    }
    proof {
        lemma_insert_at(s, cue, k as int);
    }
    sorted.insert(k, c);
    assert(cues_of(sorted@) =~= s.insert(k as int, cue));
}

/// The position of the first field equal to `name`.
fn field_position_exec(fields: &Vec<Vec<char>>, name: &[char]) -> (r: Option<usize>)
    ensures
        match r {
            Some(k) => field_position(fields@.map_values(|v: Vec<char>| v@), name@) == Some(
                k as int,
            ),
            None => field_position(fields@.map_values(|v: Vec<char>| v@), name@) is None,
        },
        r matches Some(k) ==> k < fields@.len(),
{
    let ghost fs = fields@.map_values(|v: Vec<char>| v@);
    let mut k: usize = 0;
    while k < fields.len()
        invariant
            k <= fields@.len(),
            fs == fields@.map_values(|v: Vec<char>| v@),
            field_position(fs, name@) == field_position_from(fs, name@, k as int),
        decreases fields.len() - k,
    {
        assert(fs[k as int] == fields@[k as int]@);
        if seq_equal(&fields[k], name) {
            return Some(k);
        }
        k += 1;
    }
    None
}

/// Reads an ASS/SSA document; its lines come out ordered by start time.
pub fn parse_ass(content: &str) -> (track: SubtitleTrack)
    ensures
        track_is(track, sort_by_start(ass_cues(content@))),
        forall|i: int, j: int|
            0 <= i < j < track.lines@.len() ==> #[trigger] track.lines@[i].start_ms
                <= #[trigger] track.lines@[j].start_ms,
{
    let chars = chars_of(content);
    let raw = lines_chars(&chars);
    let ghost ls = raw@.map_values(|v: Vec<char>| v@);
    let events_header = chars_of("[Events]");
    let format_prefix = chars_of("Format:");
    let dialogue_prefix = chars_of("Dialogue:");
    let text_name = chars_of("Text");
    let start_name = chars_of("Start");
    let end_name = chars_of("End");
    let mut sorted: Vec<(i64, i64, Vec<char>)> = Vec::new();
    let ghost mut taken: Seq<Cue> = Seq::empty();
    let mut in_events = false;
    let mut fields: Vec<Vec<char>> = Vec::new();
    let mut text_idx: Option<usize> = None;
    let mut start_idx: Option<usize> = None;
    let mut end_idx: Option<usize> = None;
    let mut i: usize = 0;
    proof {
        reveal_strlit("Format:");
        reveal_strlit("Dialogue:");
        assert(fields@.map_values(|v: Vec<char>| v@) =~= Seq::<Seq<char>>::empty());
        assert(taken + ass_cues_from(ls, 0, false, Seq::empty()) =~= ass_cues_from(
            ls,
            0,
            false,
            Seq::empty(),
        ));
    }
    while i < raw.len()
        invariant
            i <= raw@.len(),
            ls == raw@.map_values(|v: Vec<char>| v@),
            format_prefix@.len() == 7,
            dialogue_prefix@.len() == 9,
            events_header@ == "[Events]"@,
            format_prefix@ == "Format:"@,
            dialogue_prefix@ == "Dialogue:"@,
            text_name@ == "Text"@,
            start_name@ == "Start"@,
            end_name@ == "End"@,
            match text_idx {
                Some(k) => field_position(fields@.map_values(|v: Vec<char>| v@), "Text"@) == Some(
                    k as int,
                ),
                None => field_position(fields@.map_values(|v: Vec<char>| v@), "Text"@) is None,
            },
            match start_idx {
                Some(k) => field_position(fields@.map_values(|v: Vec<char>| v@), "Start"@)
                    == Some(k as int),
                None => field_position(fields@.map_values(|v: Vec<char>| v@), "Start"@) is None,
            },
            match end_idx {
                Some(k) => field_position(fields@.map_values(|v: Vec<char>| v@), "End"@) == Some(
                    k as int,
                ),
                None => field_position(fields@.map_values(|v: Vec<char>| v@), "End"@) is None,
            },
            text_idx matches Some(k) ==> k < fields@.len(),
            start_idx matches Some(k) ==> k < fields@.len(),
            end_idx matches Some(k) ==> k < fields@.len(),
            taken + ass_cues_from(ls, i as int, in_events, fields@.map_values(|v: Vec<char>| v@))
                == ass_cues_from(ls, 0, false, Seq::empty()),
            cues_of(sorted@) == sort_by_start(taken),
        ensures
            ass_cues_from(ls, i as int, in_events, fields@.map_values(|v: Vec<char>| v@))
                == Seq::<Cue>::empty(),
        decreases raw.len() - i,
    {
        assert(ls[i as int] == raw@[i as int]@);
        let ghost fs = fields@.map_values(|v: Vec<char>| v@);
        let line = trim_chars(&raw[i]);
        if eq_ignore_case_chars(&line, &events_header) {
            in_events = true;
            i += 1;
            continue;
        }
        if in_events && line.len() > 0 && line[0] == '[' {
            assert(ass_cues_from(ls, i as int, in_events, fs) =~= Seq::<Cue>::empty());
            break;
        }
        if in_events && starts_with_chars(&line, &format_prefix) {
            let rest = slice_vec(&line, 7, line.len());
            let pieces = split_chars(&rest, ',');
            let mut new_fields: Vec<Vec<char>> = Vec::new();
            let mut k: usize = 0;
            while k < pieces.len()
                invariant
                    k <= pieces@.len(),
                    new_fields@.map_values(|v: Vec<char>| v@) == pieces@.map_values(
                        |v: Vec<char>| v@,
                    ).take(k as int).map_values(|f: Seq<char>| trim(f)),
                decreases pieces.len() - k,
            {
                let t = trim_chars(&pieces[k]);
                let ghost before = new_fields@.map_values(|v: Vec<char>| v@);
                new_fields.push(t);
                assert(new_fields@.map_values(|v: Vec<char>| v@) =~= before.push(
                    trim(pieces@[k as int]@),
                ));
                assert(pieces@.map_values(|v: Vec<char>| v@).take(k + 1).map_values(
                    |f: Seq<char>| trim(f),
                ) =~= pieces@.map_values(|v: Vec<char>| v@).take(k as int).map_values(
                    |f: Seq<char>| trim(f),
                ).push(trim(pieces@[k as int]@)));
                k += 1;
            }
            assert(pieces@.map_values(|v: Vec<char>| v@).take(pieces@.len() as int)
                =~= pieces@.map_values(|v: Vec<char>| v@));
            assert(rest@ =~= line@.skip(7));
            fields = new_fields;
            text_idx = field_position_exec(&fields, &text_name);
            start_idx = field_position_exec(&fields, &start_name);
            end_idx = field_position_exec(&fields, &end_name);
            i += 1;
            continue;
        }
        if in_events && starts_with_chars(&line, &dialogue_prefix) {
            let rest = slice_vec(&line, 9, line.len());
            assert(rest@ =~= line@.skip(9));
            let ghost added = ass_dialogue(fs, rest@);
            match (text_idx, start_idx, end_idx) {
                (Some(ti), Some(si), Some(ei)) => {
                    let parts = splitn_chars(&rest, fields.len(), ',');
                    let ghost ps = parts@.map_values(|v: Vec<char>| v@);
                    if parts.len() >= fields.len() {
                        assert(ps[si as int] == parts@[si as int]@);
                        assert(ps[ei as int] == parts@[ei as int]@);
                        assert(ps[ti as int] == parts@[ti as int]@);
                        let st = trim_chars(&parts[si]);
                        let en = trim_chars(&parts[ei]);
                        let tx = trim_chars(&parts[ti]);
                        let start_ms = parse_ass_timestamp(&st);
                        let end_ms = parse_ass_timestamp(&en);
                        let text = strip_ass_tags(&tx);
                        if text.len() > 0 {
                            proof {
                                assert(sort_by_start(taken.push((start_ms, end_ms, text@)))
                                    == insert_by_start(sort_by_start(taken), (start_ms, end_ms, text@))) by {
                                    assert(taken.push((start_ms, end_ms, text@)).drop_last() =~= taken);
                                }
                                assert(added =~= seq![(start_ms, end_ms, text@)]);
                                assert(taken + added + ass_cues_from(ls, i + 1, true, fs) =~= taken
                                    + (added + ass_cues_from(ls, i + 1, true, fs)));
                                taken = taken.push((start_ms, end_ms, text@));
                            }
                            insert_cue(&mut sorted, (start_ms, end_ms, text));
                        } else {
                            assert(added =~= Seq::<Cue>::empty());
                            assert(Seq::<Cue>::empty() + ass_cues_from(ls, i + 1, true, fs) =~= ass_cues_from(ls, i + 1, true, fs));
                        }
                    } else {
                        assert(added =~= Seq::<Cue>::empty());
                        assert(Seq::<Cue>::empty() + ass_cues_from(ls, i + 1, true, fs) =~= ass_cues_from(ls, i + 1, true, fs));
                    }
                },
                _ => {
                    assert(added =~= Seq::<Cue>::empty());
                    assert(Seq::<Cue>::empty() + ass_cues_from(ls, i + 1, true, fs) =~= ass_cues_from(ls, i + 1, true, fs));
                },
            }
            i += 1;
            continue;
        }
        i += 1;
    }
    proof {
        assert(taken + Seq::<Cue>::empty() =~= taken);
        lemma_sort_by_start_ordered(taken);
    }
    let track = number_cues(&sorted);
    track
}

// ---------------------------------------------------------------------------
// Format detection
// ---------------------------------------------------------------------------

/// The file extension of a file name hint: what follows its last `.`, or the
/// whole name; empty without a hint.
pub open spec fn hint_extension(hint: Option<&str>) -> Seq<char> {
    match hint {
        Some(f) => after_last(f@, '.'),
        None => Seq::empty(),
    }
}

/// The cues of a subtitle document, read as SRT, ASS/SSA or WebVTT by the
/// extension (any case), else by its content: a `WEBVTT` start means WebVTT,
/// an `[Events]` or `[Script Info]` section means ASS, anything else SRT.
pub open spec fn subtitle_cues(content: Seq<char>, ext: Seq<char>) -> Seq<Cue> {
    if eq_ignore_case(ext, "srt"@) {
        srt_cues(content)
    } else if eq_ignore_case(ext, "ass"@) || eq_ignore_case(ext, "ssa"@) {
        sort_by_start(ass_cues(content))
    } else if eq_ignore_case(ext, "vtt"@) {
        vtt_cues(content)
    } else if has_prefix(content, "WEBVTT"@) {
        vtt_cues(content)
    } else if contains_seq(content, "[Events]"@) || contains_seq(content, "[Script Info]"@) {
        sort_by_start(ass_cues(content))
    } else {
        srt_cues(content)
    }
}

/// Reads a subtitle document, choosing the format by the file name hint's
/// extension or, failing that, by the content.
pub fn parse_subtitle(content: &str, filename_hint: Option<&str>) -> (track: SubtitleTrack)
    ensures
        track_is(track, subtitle_cues(content@, hint_extension(filename_hint))),
{
    let ext = match filename_hint {
        Some(f) => {
            let name = chars_of(f);
            after_last_exec(&name, '.')
        },
        None => Vec::new(),
    };
    assert(ext@ == hint_extension(filename_hint)) by {
        if filename_hint is None {
            assert(ext@ =~= Seq::<char>::empty());
        }
    }
    if eq_ignore_case_chars(&ext, &chars_of("srt")) {
        parse_srt(content)
    } else if eq_ignore_case_chars(&ext, &chars_of("ass")) || eq_ignore_case_chars(
        &ext,
        &chars_of("ssa"),
    ) {
        parse_ass(content)
    } else if eq_ignore_case_chars(&ext, &chars_of("vtt")) {
        parse_vtt(content)
    } else {
        let text = chars_of(content);
        if starts_with_chars(&text, &chars_of("WEBVTT")) {
            parse_vtt(content)
        } else if contains_chars(&text, &chars_of("[Events]")) || contains_chars(
            &text,
            &chars_of("[Script Info]"),
        ) {
            parse_ass(content)
        } else {
            parse_srt(content)
        }
    }
}

// ---------------------------------------------------------------------------
// Matching a mined sentence to a line
// ---------------------------------------------------------------------------

/// The length of a longest common subsequence of `a[..i]` and `b[..j]`.
pub open spec fn lcs(a: Seq<char>, b: Seq<char>, i: int, j: int) -> int
    decreases i, j,
{
    if i <= 0 || j <= 0 {
        0
    } else if a[i - 1] == b[j - 1] {
        lcs(a, b, i - 1, j - 1) + 1
    } else {
        let x = lcs(a, b, i - 1, j);
        let y = lcs(a, b, i, j - 1);
        if x >= y {
            x
        } else {
            y
        }
    }
}

/// The length of a longest common subsequence of `a` and `b`.
pub open spec fn lcs_len(a: Seq<char>, b: Seq<char>) -> int {
    lcs(a, b, a.len() as int, b.len() as int)
}

proof fn lemma_lcs_bounds(a: Seq<char>, b: Seq<char>, i: int, j: int)
    requires
        0 <= i,
        0 <= j,
    ensures
        0 <= lcs(a, b, i, j) <= i,
        lcs(a, b, i, j) <= j,
    decreases i, j,
{
    if i > 0 && j > 0 {
        lemma_lcs_bounds(a, b, i - 1, j - 1);
        lemma_lcs_bounds(a, b, i - 1, j);
        lemma_lcs_bounds(a, b, i, j - 1);
    }
}

fn zero_row(n: usize) -> (r: Vec<usize>)
    ensures
        r@.len() == n,
        forall|j: int| 0 <= j < n ==> r@[j] == 0,
{
    let mut r: Vec<usize> = Vec::new();
    while r.len() < n
        invariant
            r@.len() <= n,
            forall|j: int| 0 <= j < r@.len() ==> r@[j] == 0,
        decreases n - r@.len(),
    {
        r.push(0);
    }
    r
}

/// Length of a longest common subsequence, row by row.
fn longest_common_subsequence(a: &[char], b: &[char]) -> (r: usize)
    requires
        b@.len() < usize::MAX,
    ensures
        r == lcs_len(a@, b@),
{
    let m = a.len();
    let n = b.len();
    let mut prev = zero_row(n + 1);
    let mut i: usize = 0;
    while i < m
        invariant
            m == a@.len(),
            n == b@.len(),
            n < usize::MAX,
            i <= m,
            prev@.len() == n + 1,
            forall|j: int| 0 <= j <= n ==> #[trigger] prev@[j] == lcs(a@, b@, i as int, j),
        decreases m - i,
    {
        let mut curr: Vec<usize> = Vec::new();
        curr.push(0);
        let mut j: usize = 1;
        while j <= n
            invariant
                m == a@.len(),
                n == b@.len(),
                n < usize::MAX,
                i < m,
                1 <= j <= n + 1,
                prev@.len() == n + 1,
                forall|t: int| 0 <= t <= n ==> #[trigger] prev@[t] == lcs(a@, b@, i as int, t),
                curr@.len() == j,
                forall|t: int| 0 <= t < j ==> #[trigger] curr@[t] == lcs(a@, b@, i + 1, t),
            decreases n + 1 - j,
        {
            proof {
                lemma_lcs_bounds(a@, b@, i as int, j - 1);
            }
            if a[i] == b[j - 1] {
                curr.push(prev[j - 1] + 1);
            } else {
                let up = prev[j];
                let left = curr[j - 1];
                curr.push(if up >= left {
                    up
                } else {
                    left
                });
            }
            j += 1;
        }
        prev = curr;
        i += 1;
    }
    prev[n]
}

/// `char` count never exceeds the UTF-8 byte count.
proof fn lemma_len_le_utf8(s: Seq<char>)
    ensures
        s.len() <= utf8_len(s),
    decreases s.len(),
{
    if s.len() > 0 {
        lemma_len_le_utf8(s.drop_last());
    }
}

/// The normalized form of a mined sentence: HTML tags removed, then
/// [`normalize_japanese_spec`].
pub open spec fn sentence_key(sentence: Seq<char>) -> Seq<char> {
    normalize_japanese_spec(strip_tags_spec(sentence))
}

/// The normalized text of a line.
pub open spec fn line_key(l: SubtitleLine) -> Seq<char> {
    normalize_japanese_spec(l.text@)
}

/// Whether a line overlaps the window `[pos - w, pos + w]`.
pub open spec fn in_window(l: SubtitleLine, pos: i64, w: i64) -> bool {
    !(l.end_ms < pos - w || l.start_ms > pos + w)
}

/// Whether one normalized text contains the other.
pub open spec fn exact_match(key: Seq<char>, text: Seq<char>) -> bool {
    contains_seq(text, key) || contains_seq(key, text)
}

/// The larger of the two UTF-8 byte lengths.
pub open spec fn max_bytes(key: Seq<char>, text: Seq<char>) -> int {
    if utf8_len(key) >= utf8_len(text) {
        utf8_len(key) as int
    } else {
        utf8_len(text) as int
    }
}

/// Whether a line is a candidate match: it overlaps the window, its
/// normalized text is not empty, and it either contains or is contained in
/// the sentence, or shares with it a common subsequence of more than half
/// the byte length of the longer of the two.
pub open spec fn is_candidate(l: SubtitleLine, key: Seq<char>, pos: i64, w: i64) -> bool {
    &&& in_window(l, pos, w)
    &&& line_key(l).len() > 0
    &&& (exact_match(key, line_key(l)) || 2 * lcs_len(key, line_key(l)) > max_bytes(key, line_key(l)))
}

/// The score of a candidate as `(n, m)`, standing for `n / (10 * |w| * m)`:
/// `2 - d / w` for a containment match, `o / m + 0.3 * (1 - d / w)` for a
/// partial one, where `d` is the distance of the line's midpoint from `pos`,
/// `o` the common subsequence length and `m` the larger byte length.
/// With a negative window the fractions are divided by a negative number,
/// so the numerator is negated to keep `n / (10 * |w| * m)` the score. With
/// a zero window `d / w` has no value, no two scores are ordered, and every
/// candidate scores `(0, 1)`: the first candidate wins.
pub open spec fn raw_score(key: Seq<char>, text: Seq<char>, d: int, w: int) -> (int, int) {
    let (n, m) = if exact_match(key, text) {
        (20 * w - 10 * d, 1)
    } else {
        let m = max_bytes(key, text);
        (10 * w * lcs_len(key, text) + 3 * m * (w - d), m)
    };
    if w == 0 {
        (0, 1)
    } else {
        (if w < 0 {
            -n
        } else {
            n
        }, m)
    }
}

/// The score of a candidate line (see [`raw_score`]).
pub open spec fn score(l: SubtitleLine, key: Seq<char>, pos: i64, w: i64) -> (int, int) {
    raw_score(key, line_key(l), mid_distance(l, pos), w as int)
}

/// Whether score `x` is below score `y` (both with positive `m`, same `w`).
pub open spec fn score_lt(x: (int, int), y: (int, int)) -> bool {
    x.0 * y.1 < y.0 * x.1
}

/// The sizes for which matching is computed: the window's ends and the
/// midpoint distances fit in `i64`, and the normalized texts, held as
/// characters, fit in memory (at most `usize::MAX / 4` characters).
pub open spec fn match_inputs_fit(track: SubtitleTrack, key: Seq<char>, pos: i64, w: i64) -> bool {
    &&& i64::MIN <= pos - w <= i64::MAX
    &&& i64::MIN <= pos + w <= i64::MAX
    &&& key.len() <= usize::MAX / 4
    &&& forall|k: int|
        0 <= k < track.lines@.len() && in_window(#[trigger] track.lines@[k], pos, w) ==> {
            &&& line_key(track.lines@[k]).len() <= usize::MAX / 4
            &&& (line_key(track.lines@[k]).len() > 0 ==> {
                &&& i64::MIN < track.lines@[k].start_ms + track.lines@[k].end_ms <= i64::MAX
                &&& i64::MIN < midpoint(track.lines@[k]) - pos <= i64::MAX
            })
        }
}

proof fn lemma_le_lt_trans(x: (int, int), y: (int, int), z: (int, int))
    requires
        x.1 > 0,
        y.1 > 0,
        z.1 > 0,
        !score_lt(y, x),
        score_lt(y, z),
    ensures
        score_lt(x, z),
{
    let (a, b) = x;
    let (c, e) = y;
    let (f, g) = z;
    assert(a * e <= c * b);
    assert(c * g < f * e);
    assert(a * e * g <= c * b * g) by (nonlinear_arith)
        requires
            a * e <= c * b,
            g > 0,
    ;
    assert(c * g * b < f * e * b) by (nonlinear_arith)
        requires
            c * g < f * e,
            b > 0,
    ;
    assert(a * g * e < f * b * e) by (nonlinear_arith)
        requires
            a * e * g <= c * b * g,
            c * g * b < f * e * b,
    ;
    assert(a * g < f * b) by (nonlinear_arith)
        requires
            a * g * e < f * b * e,
            e > 0,
    ;
}

/// Every character takes at most four UTF-8 bytes.
proof fn lemma_utf8_le_4len(s: Seq<char>)
    ensures
        utf8_len(s) <= 4 * s.len(),
    decreases s.len(),
{
    if s.len() > 0 {
        lemma_utf8_le_4len(s.drop_last());
    }
}

proof fn lemma_candidate_den(l: SubtitleLine, key: Seq<char>, pos: i64, w: i64)
    requires
        is_candidate(l, key, pos, w),
    ensures
        score(l, key, pos, w).1 >= 1,
{
    lemma_lcs_bounds(key, line_key(l), key.len() as int, line_key(l).len() as int);
    lemma_len_le_utf8(key);
}

/// Comparing two scores by whole part, then by remainder.
proof fn lemma_score_lt_parts(x: (int, int), q1: int, r1: int, y: (int, int), q2: int, r2: int)
    requires
        x.1 > 0,
        y.1 > 0,
        x.0 == q1 * x.1 + r1,
        y.0 == q2 * y.1 + r2,
        0 <= r1 < x.1,
        0 <= r2 < y.1,
    ensures
        score_lt(x, y) == (q1 < q2 || (q1 == q2 && r1 * y.1 < r2 * x.1)),
{
    let (n1, m1) = x;
    let (n2, m2) = y;
    assert(n1 * m2 == q1 * m1 * m2 + r1 * m2) by (nonlinear_arith)
        requires
            n1 == q1 * m1 + r1,
    ;
    assert(n2 * m1 == q2 * m1 * m2 + r2 * m1) by (nonlinear_arith)
        requires
            n2 == q2 * m2 + r2,
    ;
    assert(0 <= r1 * m2 < m1 * m2) by (nonlinear_arith)
        requires
            0 <= r1 < m1,
            m2 > 0,
    ;
    assert(0 <= r2 * m1 < m1 * m2) by (nonlinear_arith)
        requires
            0 <= r2 < m2,
            m1 > 0,
    ;
    if q1 < q2 {
        assert(q1 * m1 * m2 + m1 * m2 <= q2 * m1 * m2) by (nonlinear_arith)
            requires
                q1 < q2,
                m1 > 0,
                m2 > 0,
        ;
    } else if q1 > q2 {
        assert(q2 * m1 * m2 + m1 * m2 <= q1 * m1 * m2) by (nonlinear_arith)
            requires
                q2 < q1,
                m1 > 0,
                m2 > 0,
        ;
    }
}

/// A score as whole part, remainder and denominator: `n == q * m + r`.
pub open spec fn score_parts_are(s: (int, int), q: int, r: int, m: int) -> bool {
    &&& s.1 == m
    &&& s.0 == q * m + r
    &&& 0 <= r < m
}

/// The score of a candidate, as whole part, remainder and denominator.
fn score_exec(key: &[char], key_bytes: usize, text: &[char], d: i64, w: i64) -> (r: Option<(i128, u128, u128)>)
    requires
        0 <= d,
        key_bytes == utf8_len(key@),
        key@.len() <= usize::MAX / 4,
        text@.len() <= usize::MAX / 4,
    ensures
        match r {
            Some(x) => (exact_match(key@, text@) || 2 * lcs_len(key@, text@) > max_bytes(key@, text@))
                && score_parts_are(raw_score(key@, text@, d as int, w as int), x.0 as int, x.1 as int, x.2 as int),
            None => !(exact_match(key@, text@) || 2 * lcs_len(key@, text@) > max_bytes(key@, text@)),
        },
        r matches Some(x) ==> -0x100_0000_0000_0000_0000 <= x.0 <= 0x100_0000_0000_0000_0000 && 1 <= x.2
            <= usize::MAX,
{
    let wi = w as i128;
    let di = d as i128;
    let ghost ws = w as int;
    if contains_chars(text, key) || contains_chars(key, text) {
        if w == 0 {
            return Some((0, 0, 1));
        }
        let n = if w < 0 {
            -(20 * wi - 10 * di)
        } else {
            20 * wi - 10 * di
        };
        return Some((n, 0, 1));
    }
    proof {
        lemma_len_le_utf8(key@);
        lemma_len_le_utf8(text@);
        lemma_utf8_le_4len(key@);
        lemma_utf8_le_4len(text@);
    }
    let text_bytes = utf8_len_exec(text);
    let o = longest_common_subsequence(key, text);
    let m = if key_bytes >= text_bytes {
        key_bytes
    } else {
        text_bytes
    };
    proof {
        lemma_lcs_bounds(key@, text@, key@.len() as int, text@.len() as int);
    }
    if 2 * o > m {
        if w == 0 {
            return Some((0, 0, 1));
        }
        // n = 10 * |w| * o + m * b, with b = 3 * (|w| - d) for a positive
        // window and 3 * (|w| + d) for a negative one.
        let wa: u128 = if w < 0 {
            (-wi) as u128
        } else {
            wi as u128
        };
        let b: i128 = if w < 0 {
            3 * ((wa as i128) + di)
        } else {
            3 * ((wa as i128) - di)
        };
        let mu = m as u128;
        let ou = o as u128;
        assert(wa * ou <= 0x8000_0000_0000_0000 * 0x4000_0000_0000_0000) by (nonlinear_arith)
            requires
                wa <= 0x8000_0000_0000_0000,
                ou <= 0x4000_0000_0000_0000,
        ;
        let p = wa * ou;
        let pd = p / mu;
        let pm = p % mu;
        let t = 10 * pm;
        let tq = t / mu;
        let rem = t % mu;
        proof {
            assert(p == pd * mu + pm && pm < mu) by (nonlinear_arith)
                requires
                    mu > 0,
                    pd == p / mu,
                    pm == p % mu,
            ;
            assert(t == tq * mu + rem && rem < mu) by (nonlinear_arith)
                requires
                    mu > 0,
                    tq == t / mu,
                    rem == t % mu,
            ;
            assert(pd <= wa) by (nonlinear_arith)
                requires
                    p == wa * ou,
                    ou <= mu,
                    mu > 0,
                    p == pd * mu + pm,
                    pm >= 0,
            ;
            assert(tq <= 10) by (nonlinear_arith)
                requires
                    t == 10 * pm,
                    pm < mu,
                    t == tq * mu + rem,
                    rem >= 0,
                    mu > 0,
            ;
        }
        let a = 10 * pd + tq;
        proof {
            let big_n = if ws < 0 {
                -(10 * ws * o + 3 * m * (ws - d))
            } else {
                10 * ws * o + 3 * m * (ws - d)
            };
            assert(big_n == 10 * (wa as int) * (o as int) + (m as int) * (b as int)) by (nonlinear_arith)
                requires
                    ws < 0 ==> wa == -ws && b == 3 * (-ws + d),
                    ws > 0 ==> wa == ws && b == 3 * (ws - d),
                    ws != 0,
                    big_n == (if ws < 0 {
                        -(10 * ws * o + 3 * m * (ws - d))
                    } else {
                        10 * ws * o + 3 * m * (ws - d)
                    }),
            ;
            assert(10 * p == 10 * pd * mu + t) by (nonlinear_arith)
                requires
                    p == pd * mu + pm,
                    t == 10 * pm,
            ;
            assert(10 * p == (10 * pd + tq) * mu + rem) by (nonlinear_arith)
                requires
                    10 * p == 10 * pd * mu + t,
                    t == tq * mu + rem,
            ;
            assert(10 * (wa as int) * (o as int) == 10 * p) by (nonlinear_arith)
                requires
                    p == wa * ou,
                    ou == o,
            ;
            assert(big_n == ((a as int) + (b as int)) * (m as int) + rem) by (nonlinear_arith)
                requires
                    big_n == 10 * (wa as int) * (o as int) + (m as int) * (b as int),
                    10 * (wa as int) * (o as int) == (a as int) * (mu as int) + rem,
                    mu == m,
            ;
        }
        let q = (a as i128) + b;
        return Some((q, rem, mu));
    }
    None
}

/// Finds the subtitle line that best matches a mined sentence near
/// `position_ms`, and gives that line's `index`.
///
/// Lines overlapping `[position_ms - window_ms, position_ms + window_ms]` are
/// candidates when their normalized text contains or is contained in the
/// normalized sentence (HTML tags removed first), or when the two share a
/// common subsequence longer than half the byte length of the longer one.
/// Each candidate is scored (see [`score`]) and the first one with the
/// highest score wins; scores are compared exactly.
pub fn find_matching_line(track: &SubtitleTrack, sentence: &str, position_ms: i64, window_ms: i64) -> (r: Option<usize>)
    requires
        match_inputs_fit(*track, sentence_key(sentence@), position_ms, window_ms),
    ensures
        ({
            let key = sentence_key(sentence@);
            let ls = track.lines@;
            match r {
                None => key.len() == 0 || forall|k: int|
                    0 <= k < ls.len() ==> !is_candidate(#[trigger] ls[k], key, position_ms, window_ms),
                Some(idx) => key.len() > 0 && exists|k: int|
                    0 <= k < ls.len() && is_candidate(#[trigger] ls[k], key, position_ms, window_ms)
                        && idx == ls[k].index && (forall|j: int|
                        0 <= j < ls.len() && is_candidate(#[trigger] ls[j], key, position_ms, window_ms)
                            ==> !score_lt(score(ls[k], key, position_ms, window_ms), score(ls[j], key, position_ms, window_ms)))
                        && (forall|j: int|
                        0 <= j < k && is_candidate(#[trigger] ls[j], key, position_ms, window_ms)
                            ==> score_lt(score(ls[j], key, position_ms, window_ms), score(ls[k], key, position_ms, window_ms))),
            }
        }),
{
    let ghost key_spec = sentence_key(sentence@);
    let ghost ls = track.lines@;
    let raw = chars_of(sentence);
    let clean = strip_tags(&raw);
    let key = normalize_chars(&clean);
    if key.len() == 0 {
        return None;
    }
    let key_bytes = utf8_len_exec(&key);
    let window_start = position_ms - window_ms;
    let window_end = position_ms + window_ms;
    let mut best: Option<(usize, i128, u128, u128)> = None;
    let ghost mut bk: int = 0;
    let mut k: usize = 0;
    while k < track.lines.len()
        invariant
            key@ == key_spec,
            key_spec == sentence_key(sentence@),
            ls == track.lines@,
            key_bytes == utf8_len(key@),
            key@.len() > 0,
            match_inputs_fit(*track, key_spec, position_ms, window_ms),
            window_start == position_ms - window_ms,
            window_end == position_ms + window_ms,
            k <= ls.len(),
            best is None ==> forall|j: int|
                0 <= j < k ==> !is_candidate(#[trigger] ls[j], key_spec, position_ms, window_ms),
            best matches Some(b) ==> {
                &&& 0 <= bk < k
                &&& is_candidate(ls[bk], key_spec, position_ms, window_ms)
                &&& b.0 == ls[bk].index
                &&& score_parts_are(score(ls[bk], key_spec, position_ms, window_ms), b.1 as int, b.2 as int, b.3 as int)
                &&& -0x100_0000_0000_0000_0000 <= b.1 <= 0x100_0000_0000_0000_0000
                &&& 1 <= b.3 <= usize::MAX
                &&& forall|j: int|
                    0 <= j < k && is_candidate(#[trigger] ls[j], key_spec, position_ms, window_ms)
                        ==> !score_lt(score(ls[bk], key_spec, position_ms, window_ms), score(ls[j], key_spec, position_ms, window_ms))
                &&& forall|j: int|
                    0 <= j < bk && is_candidate(#[trigger] ls[j], key_spec, position_ms, window_ms)
                        ==> score_lt(score(ls[j], key_spec, position_ms, window_ms), score(ls[bk], key_spec, position_ms, window_ms))
            },
        decreases ls.len() - k,
    {
        let line = &track.lines[k];
        if line.end_ms < window_start || line.start_ms > window_end {
            assert(!in_window(ls[k as int], position_ms, window_ms));
            k += 1;
            continue;
        }
        assert(in_window(ls[k as int], position_ms, window_ms));
        let t = chars_of(line.text.as_str());
        let text = normalize_chars(&t);
        assert(text@ == line_key(ls[k as int]));
        if text.len() == 0 {
            k += 1;
            continue;
        }
        let mid = half_exec(line.start_ms + line.end_ms);
        let diff = mid - position_ms;
        let d = if diff < 0 {
            -diff
        } else {
            diff
        };
        assert(d == mid_distance(ls[k as int], position_ms));
        match score_exec(&key, key_bytes, &text, d, window_ms) {
            Some((q, rem, den)) => {
                assert(is_candidate(ls[k as int], key_spec, position_ms, window_ms));
                let ghost sk = score(ls[k as int], key_spec, position_ms, window_ms);
                assert(score_parts_are(sk, q as int, rem as int, den as int));
                match best {
                    None => {
                        best = Some((line.index, q, rem, den));
                        proof {
                            bk = k as int;
                        }
                    },
                    Some((_, bq, br, bd)) => {
                        let ghost sb = score(ls[bk], key_spec, position_ms, window_ms);
                        proof {
                            lemma_score_lt_parts(sb, bq as int, br as int, sk, q as int, rem as int);
                            assert(br * den <= 0xFFFF_FFFF_FFFF_FFFF * 0xFFFF_FFFF_FFFF_FFFF) by (nonlinear_arith)
                                requires
                                    br < bd,
                                    bd <= 0xFFFF_FFFF_FFFF_FFFF,
                                    den <= 0xFFFF_FFFF_FFFF_FFFF,
                            ;
                            assert(rem * bd <= 0xFFFF_FFFF_FFFF_FFFF * 0xFFFF_FFFF_FFFF_FFFF) by (nonlinear_arith)
                                requires
                                    rem < den,
                                    den <= 0xFFFF_FFFF_FFFF_FFFF,
                                    bd <= 0xFFFF_FFFF_FFFF_FFFF,
                            ;
                        }
                        if bq < q || (bq == q && br * den < rem * bd) {
                            best = Some((line.index, q, rem, den));
                            proof {
                                assert(score_lt(sb, sk));
                                assert forall|j: int|
                                    0 <= j < k && is_candidate(
                                        #[trigger] ls[j],
                                        key_spec,
                                        position_ms,
                                        window_ms,
                                    ) implies score_lt(score(ls[j], key_spec, position_ms, window_ms), sk) by {
                                    lemma_candidate_den(ls[j], key_spec, position_ms, window_ms);
                                    lemma_le_lt_trans(score(ls[j], key_spec, position_ms, window_ms), sb, sk);
                                }
                                bk = k as int;
                            }
                        } else {
                            assert(!score_lt(sb, sk));
                        }
                    },
                }
            },
            None => {
                assert(!is_candidate(ls[k as int], key_spec, position_ms, window_ms));
            },
        }
        k += 1;
    }
    match best {
        Some((idx, _, _, _)) => Some(idx),
        None => None,
    }
}

/// A clock time reads as its milliseconds: an hour is 3 600 000 ms, a minute
/// 60 000 ms, a second 1 000 ms, and the fraction counts in its unit (1 ms,
/// or 10 ms for ASS centiseconds).
pub proof fn lemma_clock_time_value(h: i64, m: i64, s: i64, f: i64, unit: i64)
    requires
        0 <= h <= 1_000_000,
        0 <= m <= 1_000_000,
        0 <= s <= 1_000_000,
        0 <= f <= 1_000_000,
        unit == 1 || unit == 10,
    ensures
        clock_ms(h, m, s, f, unit) == h * 3_600_000 + m * 60_000 + s * 1_000 + f * unit,
{
    let hh = h.wrapping_mul(3_600_000);
    let mm = m.wrapping_mul(60_000);
    let ss = s.wrapping_mul(1_000);
    let ff = f.wrapping_mul(unit);
    lemma_exact_product(h, 3_600_000);
    lemma_exact_product(m, 60_000);
    lemma_exact_product(s, 1_000);
    lemma_exact_product(f, unit);
    assert(hh == h * 3_600_000);
    assert(mm == m * 60_000);
    assert(ss == s * 1_000);
    assert(ff == f * unit);
    assert(hh.wrapping_add(mm) == hh + mm);
    assert(hh.wrapping_add(mm).wrapping_add(ss) == hh + mm + ss);
    assert(hh.wrapping_add(mm).wrapping_add(ss).wrapping_add(ff) == hh + mm + ss + ff);
}

/// A product of small non-negative factors does not wrap.
proof fn lemma_exact_product(x: i64, y: i64)
    requires
        0 <= x <= 1_000_000,
        1 <= y <= 3_600_000,
    ensures
        x.wrapping_mul(y) == x * y,
        0 <= x * y <= 3_600_000_000_000,
{
    assert(0 <= x * y <= 3_600_000_000_000) by (nonlinear_arith)
        requires
            0 <= x <= 1_000_000,
            1 <= y <= 3_600_000,
    ;
    let p = x * y;
    assert(p % 0x1_0000_0000_0000_0000 == p);
}

/// With a positive window, of two lines whose text contains (or is
/// contained in) the sentence, the one whose midpoint is nearer the position
/// ranks strictly higher.
pub proof fn lemma_nearer_exact_match_ranks_higher(a: SubtitleLine, b: SubtitleLine, key: Seq<char>, pos: i64, w: i64)
    requires
        w > 0,
        exact_match(key, line_key(a)),
        exact_match(key, line_key(b)),
        mid_distance(a, pos) < mid_distance(b, pos),
    ensures
        score_lt(score(b, key, pos, w), score(a, key, pos, w)),
        !score_lt(score(a, key, pos, w), score(b, key, pos, w)),
{
}

/// With a positive window, of two candidate lines with the same text, the
/// one whose midpoint is nearer the position ranks strictly higher.
pub proof fn lemma_nearer_line_with_same_text_ranks_higher(
    a: SubtitleLine,
    b: SubtitleLine,
    key: Seq<char>,
    pos: i64,
    w: i64,
)
    requires
        w > 0,
        is_candidate(a, key, pos, w),
        line_key(a) == line_key(b),
        mid_distance(a, pos) < mid_distance(b, pos),
    ensures
        score_lt(score(b, key, pos, w), score(a, key, pos, w)),
        !score_lt(score(a, key, pos, w), score(b, key, pos, w)),
{
    lemma_candidate_den(a, key, pos, w);
    let text = line_key(a);
    let da = mid_distance(a, pos);
    let db = mid_distance(b, pos);
    if exact_match(key, text) {
        assert(score(a, key, pos, w) == (20 * w - 10 * da, 1int));
        assert(score(b, key, pos, w) == (20 * w - 10 * db, 1int));
    } else {
        let m = max_bytes(key, text);
        let o = lcs_len(key, text);
        let na = 10 * w * o + 3 * m * (w - da);
        let nb = 10 * w * o + 3 * m * (w - db);
        assert(score(a, key, pos, w) == (na, m));
        assert(score(b, key, pos, w) == (nb, m));
        assert(nb < na) by (nonlinear_arith)
            requires
                m >= 1,
                da < db,
                na == 10 * w * o + 3 * m * (w - da),
                nb == 10 * w * o + 3 * m * (w - db),
        ;
        assert(nb * m < na * m) by (nonlinear_arith)
            requires
                nb < na,
                m >= 1,
        ;
        assert(!(na * m < nb * m));
    }
}

/// Whether the text holds no `c`.
pub open spec fn free_of(x: Seq<char>, c: char) -> bool {
    forall|k: int| 0 <= k < x.len() ==> x[k] != c
}

proof fn lemma_first_at(s: Seq<char>, c: char, i: int, p: int)
    requires
        0 <= i <= p <= s.len(),
        forall|k: int| i <= k < p ==> s[k] != c,
        p < s.len() ==> s[p] == c,
    ensures
        next_index_of(s, c, i) == p,
    decreases p - i,
{
    if i < p {
        lemma_first_at(s, c, i + 1, p);
    }
}

/// Splitting `a c b` at `c` gives `a` and `b` when neither holds `c`.
proof fn lemma_split_two(a: Seq<char>, b: Seq<char>, c: char)
    requires
        free_of(a, c),
        free_of(b, c),
    ensures
        split_seq(a + seq![c] + b, c) == seq![a, b],
{
    let s = a + seq![c] + b;
    let i: int = a.len() as int + 1;
    lemma_first_at(s, c, 0, a.len() as int);
    assert forall|k: int| i <= k < s.len() implies s[k] != c by {
        assert(s[k] == b[k - i]);
    }
    lemma_first_at(s, c, i, s.len() as int);
    assert(s.subrange(0, a.len() as int) =~= a);
    assert(s.subrange(i, s.len() as int) =~= b);
    assert(split_from(s, c, i) == seq![b]);
    assert(split_seq(s, c) =~= seq![a, b]);
}

/// Splitting `a c b c d` at `c` gives `a`, `b` and `d` when none holds `c`.
proof fn lemma_split_three(a: Seq<char>, b: Seq<char>, d: Seq<char>, c: char)
    requires
        free_of(a, c),
        free_of(b, c),
        free_of(d, c),
    ensures
        split_seq(a + seq![c] + b + seq![c] + d, c) == seq![a, b, d],
{
    let s = a + seq![c] + b + seq![c] + d;
    let i: int = a.len() as int + 1;
    let j: int = i + b.len() + 1;
    lemma_first_at(s, c, 0, a.len() as int);
    assert forall|k: int| i <= k < j - 1 implies s[k] != c by {
        assert(s[k] == b[k - i]);
    }
    lemma_first_at(s, c, i, j - 1);
    assert forall|k: int| j <= k < s.len() implies s[k] != c by {
        assert(s[k] == d[k - j]);
    }
    lemma_first_at(s, c, j, s.len() as int);
    assert(s.subrange(0, a.len() as int) =~= a);
    assert(s.subrange(i, j - 1) =~= b);
    assert(s.subrange(j, s.len() as int) =~= d);
    assert(split_from(s, c, j) == seq![d]);
    assert(split_from(s, c, i) =~= seq![b, d]);
    assert(split_seq(s, c) =~= seq![a, b, d]);
}

/// Digits hold no separator.
proof fn lemma_digits_free(x: Seq<char>)
    requires
        all_digits(x),
    ensures
        free_of(x, ':'),
        free_of(x, '.'),
        free_of(x, ','),
{
    assert forall|k: int| 0 <= k < x.len() implies x[k] != ':' && x[k] != '.' && x[k] != ',' by {
        assert(is_digit(x[k]));
    }
}

/// A field of digits reads as its decimal value.
proof fn lemma_digits_read(x: Seq<char>)
    requires
        x.len() > 0,
        all_digits(x),
        decimal_value(x) <= 1_000_000,
    ensures
        int_or_zero(x) == decimal_value(x),
        0 <= decimal_value(x),
{
    lemma_decimal_nonneg(x);
    assert(is_digit(x[0]));
    assert(signed_parts(x) == (false, x));
}

proof fn lemma_decimal_nonneg(x: Seq<char>)
    requires
        all_digits(x),
    ensures
        0 <= decimal_value(x),
    decreases x.len(),
{
    if x.len() > 0 {
        assert(is_digit(x[x.len() - 1]));
        lemma_decimal_nonneg(x.drop_last());
    }
}

/// The fields of a timestamp: digits only, each of value at most 1 000 000.
pub open spec fn small_digit_field(x: Seq<char>) -> bool {
    x.len() > 0 && all_digits(x) && decimal_value(x) <= 1_000_000
}

/// An SRT or WebVTT timestamp `H:MM:SS,mmm` (or with `.` before the
/// milliseconds) reads as H hours of 3 600 000 ms, M minutes of 60 000 ms,
/// S seconds of 1 000 ms and mmm milliseconds.
pub proof fn lemma_srt_timestamp_value(h: Seq<char>, m: Seq<char>, s: Seq<char>, f: Seq<char>, sep: char)
    requires
        small_digit_field(h),
        small_digit_field(m),
        small_digit_field(s),
        small_digit_field(f),
        sep == ',' || sep == '.',
    ensures
        vtt_timestamp_ms(h + ":"@ + m + ":"@ + s + seq![sep] + f) == decimal_value(h) * 3_600_000 + decimal_value(
            m,
        ) * 60_000 + decimal_value(s) * 1_000 + decimal_value(f),
{
    reveal_strlit(":");
    assert(":"@ =~= seq![':']);
    lemma_digits_free(h);
    lemma_digits_free(m);
    lemma_digits_free(s);
    lemma_digits_free(f);
    lemma_digits_read(h);
    lemma_digits_read(m);
    lemma_digits_read(s);
    lemma_digits_read(f);
    let t = h + seq![':'] + m + seq![':'] + s;
    let ts = t + seq![sep] + f;
    assert(h + ":"@ + m + ":"@ + s + seq![sep] + f =~= ts);
    assert(free_of(t, '.') && free_of(t, ',')) by {
        assert forall|k: int| 0 <= k < t.len() implies t[k] != '.' && t[k] != ',' by {
            if k < h.len() {
                assert(t[k] == h[k]);
            } else if k == h.len() {
            } else if k < h.len() + 1 + m.len() {
                assert(t[k] == m[k - h.len() - 1]);
            } else if k == h.len() + 1 + m.len() {
            } else {
                assert(t[k] == s[k - h.len() - 2 - m.len()]);
            }
        }
    }
    if sep == '.' {
        lemma_first_at(ts, '.', 0, t.len() as int);
    } else {
        assert forall|k: int| 0 <= k < ts.len() implies ts[k] != '.' by {
            if k < t.len() {
                assert(ts[k] == t[k]);
            } else if k > t.len() {
                assert(ts[k] == f[k - t.len() - 1]);
            }
        }
        lemma_first_at(ts, '.', 0, ts.len() as int);
        lemma_first_at(ts, ',', 0, t.len() as int);
    }
    assert(ts.take(t.len() as int) =~= t);
    assert(ts.skip(t.len() as int + 1) =~= f);
    assert(vtt_timestamp_parts(ts) == (t, f));
    lemma_split_three(h, m, s, ':');
    lemma_clock_time_value(
        decimal_value(h) as i64,
        decimal_value(m) as i64,
        decimal_value(s) as i64,
        decimal_value(f) as i64,
        1,
    );
}

/// An ASS timestamp `H:MM:SS.CC` reads as H hours of 3 600 000 ms, M
/// minutes of 60 000 ms, S seconds of 1 000 ms and CC centiseconds of 10 ms.
pub proof fn lemma_ass_timestamp_value(h: Seq<char>, m: Seq<char>, s: Seq<char>, cs: Seq<char>)
    requires
        small_digit_field(h),
        small_digit_field(m),
        small_digit_field(s),
        small_digit_field(cs),
    ensures
        ass_timestamp_ms(h + ":"@ + m + ":"@ + s + "."@ + cs) == decimal_value(h) * 3_600_000 + decimal_value(
            m,
        ) * 60_000 + decimal_value(s) * 1_000 + decimal_value(cs) * 10,
{
    reveal_strlit(":");
    reveal_strlit(".");
    assert(":"@ =~= seq![':']);
    assert("."@ =~= seq!['.']);
    lemma_digits_free(h);
    lemma_digits_free(m);
    lemma_digits_free(s);
    lemma_digits_free(cs);
    lemma_digits_read(h);
    lemma_digits_read(m);
    lemma_digits_read(s);
    lemma_digits_read(cs);
    let sec = s + seq!['.'] + cs;
    assert(free_of(sec, ':')) by {
        assert forall|k: int| 0 <= k < sec.len() implies sec[k] != ':' by {
            if k < s.len() {
                assert(sec[k] == s[k]);
            } else if k > s.len() {
                assert(sec[k] == cs[k - s.len() - 1]);
            }
        }
    }
    let ts = h + seq![':'] + m + seq![':'] + sec;
    assert(h + ":"@ + m + ":"@ + s + "."@ + cs =~= ts);
    lemma_split_three(h, m, sec, ':');
    lemma_split_two(s, cs, '.');
    lemma_clock_time_value(
        decimal_value(h) as i64,
        decimal_value(m) as i64,
        decimal_value(s) as i64,
        decimal_value(cs) as i64,
        10,
    );
}

// ---------------------------------------------------------------------------
// Laws
// ---------------------------------------------------------------------------

proof fn lemma_insert_by_start_multiset(s: Seq<Cue>, c: Cue)
    ensures
        insert_by_start(s, c).to_multiset() == s.to_multiset().insert(c),
    decreases s.len(),
{
    broadcast use vstd::seq_lib::group_seq_properties;

    if s.len() == 0 {
        assert(seq![c] =~= Seq::<Cue>::empty().push(c));
    } else if s.last().0 <= c.0 {
    } else {
        lemma_insert_by_start_multiset(s.drop_last(), c);
        assert(s.drop_last().push(s.last()) =~= s);
        assert(s.to_multiset() =~= s.drop_last().to_multiset().insert(s.last()));
        assert(insert_by_start(s.drop_last(), c).push(s.last()).to_multiset() =~= s.drop_last().to_multiset().insert(
            c,
        ).insert(s.last()));
        assert(s.drop_last().to_multiset().insert(c).insert(s.last()) =~= s.to_multiset().insert(c));
    }
}

/// Sorting the ASS events by start time keeps every event: the sorted cues
/// are a rearrangement of the cues in file order.
pub proof fn lemma_sort_by_start_keeps_cues(s: Seq<Cue>)
    ensures
        sort_by_start(s).to_multiset() == s.to_multiset(),
    decreases s.len(),
{
    broadcast use vstd::seq_lib::group_seq_properties;

    if s.len() == 0 {
        assert(sort_by_start(s) =~= s);
    } else {
        lemma_sort_by_start_keeps_cues(s.drop_last());
        lemma_insert_by_start_multiset(sort_by_start(s.drop_last()), s.last());
        assert(s.drop_last().push(s.last()) =~= s);
    }
}

/// Normalizing twice changes nothing more than normalizing once.
pub proof fn lemma_normalize_idempotent(s: Seq<char>)
    ensures
        normalize_japanese_spec(normalize_japanese_spec(s)) == normalize_japanese_spec(s),
    decreases s.len(),
{
    reveal(Seq::filter);
    if s.len() > 0 {
        lemma_normalize_idempotent(s.drop_last());
        let f = normalize_japanese_spec(s.drop_last());
        if kept_for_matching(s.last()) {
            assert(normalize_japanese_spec(s) == f.push(s.last()));
            assert(f.push(s.last()).drop_last() =~= f);
        }
    }
}

} // verus!

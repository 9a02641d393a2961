//! Mining history records and the Tadoku export summaries built from them.
use vstd::prelude::*;
use crate::media_server::{display_title_text, div_toward_zero, NowPlaying};
use crate::text::{
    all_digits, append, append_str, chars_of, has_prefix, is_digit, join_chars,
    join_seq, parse_u32, parse_u32_spec, slice_vec, starts_with_chars, string_of, trim, trim_chars,
    trim_start, u64_padded, zero_padded, owned, first_index_of, str_equal, text_less, text_less_exec,
    lemma_text_less_asymmetric, lemma_text_less_transitive, lemma_zero_padded_value, is_ws, decimal_value,
};

verus! {

/// Where an enrichment dialog's data comes from.
#[derive(Clone, Copy, Debug, PartialEq, Eq, Structural)]
pub enum EnrichmentSource {
    Pending,
    MiningHistory,
}

impl Default for EnrichmentSource {
    fn default() -> (r: Self)
        ensures
            r == EnrichmentSource::Pending,
    {
        EnrichmentSource::Pending
    }
}

/// A group of watched episodes ready to be logged to Tadoku.
pub struct TadokuExportBatch {
    pub batch_id: String,
    pub series_name: String,
    pub description: String,
    pub duration_seconds: i32,
    pub language_code: String,
}

/// A watched item that can be exported to Tadoku.
pub struct TadokuCandidate {
    pub history_id: String,
    pub series_name: String,
    pub title: String,
    pub watched_at: String,
    pub duration_seconds: i32,
    pub pending_retry: bool,
    pub last_error: Option<String>,
}

/// Whole seconds of a duration in milliseconds (rounded toward zero),
/// clamped to at least 1 and at most `i32::MAX`.
pub open spec fn duration_seconds_of(total_ms: int) -> int {
    let s = div_toward_zero(total_ms, 1000);
    if s < 1 {
        1
    } else if s > i32::MAX {
        i32::MAX as int
    } else {
        s
    }
}

/// The seconds Tadoku is given for a duration in milliseconds.
pub fn tadoku_duration_seconds(total_duration_ms: i128) -> (r: i32)
    ensures
        r == duration_seconds_of(total_duration_ms as int),
{
    let s = total_duration_ms / 1_000;
    if s < 1 {
        1
    } else if s > i32::MAX as i128 {
        i32::MAX
    } else {
        s as i32
    }
}

// ---------------------------------------------------------------------------
// Episode numbers
// ---------------------------------------------------------------------------

/// The first index at or after `i` that is not an ASCII digit, or the length.
pub open spec fn digits_end(s: Seq<char>, i: int) -> int
    decreases s.len() - i,
{
    if 0 <= i < s.len() && is_digit(s[i]) {
        digits_end(s, i + 1)
    } else {
        i
    }
}

/// Season and episode of a title `{series} S{season}E{episode}...`: after
/// the series name and any whitespace, an `S`, the season digits up to the
/// first `E`, then the episode digits; both must be non-empty decimal
/// numbers that fit in `u32`.
pub open spec fn episode_number(series: Seq<char>, title: Seq<char>) -> Option<(u32, u32)> {
    if !has_prefix(title, series) {
        None
    } else {
        let rest = trim_start(title.skip(series.len() as int));
        if rest.len() == 0 || rest[0] != 'S' {
            None
        } else {
            let suffix = rest.skip(1);
            match first_index_of(suffix, 'E', 0) {
                None => None,
                Some(e) => {
                    let season = suffix.take(e);
                    let after = suffix.skip(e + 1);
                    let episode = after.take(digits_end(after, 0));
                    if season.len() == 0 || episode.len() == 0 || !all_digits(season) {
                        None
                    } else {
                        match (parse_u32_spec(season), parse_u32_spec(episode)) {
                            (Some(a), Some(b)) => Some((a, b)),
                            _ => None,
                        }
                    }
                },
            }
        }
    }
}

proof fn lemma_digits_end(s: Seq<char>, i: int)
    requires
        0 <= i <= s.len(),
    ensures
        i <= digits_end(s, i) <= s.len(),
        forall|k: int| i <= k < digits_end(s, i) ==> is_digit(#[trigger] s[k]),
    decreases s.len() - i,
{
    if i < s.len() && is_digit(s[i]) {
        lemma_digits_end(s, i + 1);
    }
}

fn all_digits_exec(s: &[char]) -> (r: bool)
    ensures
        r == all_digits(s@),
{
    let mut k: usize = 0;
    while k < s.len()
        invariant
            k <= s@.len(),
            forall|j: int| 0 <= j < k ==> is_digit(#[trigger] s@[j]),
        decreases s.len() - k,
    {
        if !('0' <= s[k] && s[k] <= '9') {
            assert(!is_digit(s@[k as int]));
            return false;
        }
        k += 1;
    }
    true
}

/// Reads the season and episode numbers of an episode title.
pub fn parse_episode_number(series_name: &str, title: &str) -> (r: Option<(u32, u32)>)
    ensures
        r == episode_number(series_name@, title@),
{
    let t = chars_of(title);
    let series = chars_of(series_name);
    if !starts_with_chars(&t, &series) {
        return None;
    }
    let tail = slice_vec(&t, series.len(), t.len());
    assert(tail@ =~= title@.skip(series_name@.len() as int));
    let mut i: usize = 0;
    assert(tail@.skip(0) =~= tail@);
    while i < tail.len() && crate::text::char_is_ws(tail[i])
        invariant
            i <= tail@.len(),
            trim_start(tail@) == trim_start(tail@.skip(i as int)),
        decreases tail.len() - i,
    {
        assert(tail@.skip(i as int).drop_first() =~= tail@.skip(i + 1));
        i += 1;
    }
    let rest = slice_vec(&tail, i, tail.len());
    assert(rest@ =~= tail@.skip(i as int));
    assert(trim_start(rest@) == rest@) by {
        if rest@.len() > 0 {
            assert(rest@[0] == tail@[i as int]);
        }
    }
    if rest.len() == 0 || rest[0] != 'S' {
        return None;
    }
    let suffix = slice_vec(&rest, 1, rest.len());
    assert(suffix@ =~= rest@.skip(1));
    let mut e: usize = 0;
    while e < suffix.len() && suffix[e] != 'E'
        invariant
            e <= suffix@.len(),
            first_index_of(suffix@, 'E', 0) == first_index_of(suffix@, 'E', e as int),
        decreases suffix.len() - e,
    {
        e += 1;
    }
    if e == suffix.len() {
        return None;
    }
    let season = slice_vec(&suffix, 0, e);
    let after = slice_vec(&suffix, e + 1, suffix.len());
    assert(season@ =~= suffix@.take(e as int));
    assert(after@ =~= suffix@.skip(e + 1));
    let mut d: usize = 0;
    while d < after.len() && '0' <= after[d] && after[d] <= '9'
        invariant
            d <= after@.len(),
            digits_end(after@, 0) == digits_end(after@, d as int),
        decreases after.len() - d,
    {
        d += 1;
    }
    let episode = slice_vec(&after, 0, d);
    assert(episode@ =~= after@.take(d as int));
    if season.len() == 0 || episode.len() == 0 {
        return None;
    }
    if !all_digits_exec(&season) {
        return None;
    }
    match (parse_u32(&season), parse_u32(&episode)) {
        (Some(a), Some(b)) => Some((a, b)),
        _ => None,
    }
}

// ---------------------------------------------------------------------------
// Batch descriptions
// ---------------------------------------------------------------------------

/// `x` placed into the ascending distinct list `s` (kept once).
pub open spec fn insert_sorted(s: Seq<u32>, x: u32) -> Seq<u32>
    decreases s.len(),
{
    if s.len() == 0 {
        seq![x]
    } else if s.last() < x {
        s.push(x)
    } else if s.last() == x {
        s
    } else {
        insert_sorted(s.drop_last(), x).push(s.last())
    }
}

/// The distinct seasons of the episodes, ascending.
pub open spec fn seasons_of(eps: Seq<(u32, u32)>) -> Seq<u32>
    decreases eps.len(),
{
    if eps.len() == 0 {
        Seq::empty()
    } else {
        insert_sorted(seasons_of(eps.drop_last()), eps.last().0)
    }
}

/// The distinct episode numbers of one season, ascending.
pub open spec fn season_episodes(eps: Seq<(u32, u32)>, season: u32) -> Seq<u32>
    decreases eps.len(),
{
    if eps.len() == 0 {
        Seq::empty()
    } else if eps.last().0 == season {
        insert_sorted(season_episodes(eps.drop_last(), season), eps.last().1)
    } else {
        season_episodes(eps.drop_last(), season)
    }
}

/// The last index of the run of consecutive numbers that starts at `i`.
pub open spec fn run_end(s: Seq<u32>, i: int) -> int
    decreases s.len() - i,
{
    if 0 <= i && i + 1 < s.len() && s[i + 1] == s[i] + 1 {
        run_end(s, i + 1)
    } else {
        i
    }
}

pub proof fn lemma_run_end(s: Seq<u32>, i: int)
    requires
        0 <= i < s.len(),
    ensures
        i <= run_end(s, i) < s.len(),
    decreases s.len() - i,
{
    if i + 1 < s.len() && s[i + 1] == s[i] + 1 {
        lemma_run_end(s, i + 1);
    }
}

/// `S{season:02}E{first:02}`, with `-{last:02}` for a run of several.
pub open spec fn range_text(season: u32, first: u32, last: u32) -> Seq<char> {
    "S"@ + zero_padded(season as nat, 2) + "E"@ + zero_padded(first as nat, 2) + (if first == last {
        Seq::empty()
    } else {
        "-"@ + zero_padded(last as nat, 2)
    })
}

/// The runs of consecutive episodes of a season from position `i`, as text.
pub open spec fn range_texts(season: u32, s: Seq<u32>, i: int) -> Seq<Seq<char>>
    decreases s.len() - i,
{
    if i < 0 || i >= s.len() {
        Seq::empty()
    } else {
        proof {
            lemma_run_end(s, i);
        }
        let j = run_end(s, i);
        seq![range_text(season, s[i], s[j])] + range_texts(season, s, j + 1)
    }
}

/// The runs of every season from the `k`-th on, seasons ascending.
pub open spec fn season_ranges(eps: Seq<(u32, u32)>, seasons: Seq<u32>, k: int) -> Seq<Seq<char>>
    decreases seasons.len() - k,
{
    if k < 0 || k >= seasons.len() {
        Seq::empty()
    } else {
        range_texts(seasons[k], season_episodes(eps, seasons[k]), 0) + season_ranges(eps, seasons, k + 1)
    }
}

/// The season and episode of every title from the `k`-th on, when all parse.
pub open spec fn all_episode_numbers(series: Seq<char>, titles: Seq<Seq<char>>, k: int) -> Option<
    Seq<(u32, u32)>,
>
    decreases titles.len() - k,
{
    if k < 0 || k >= titles.len() {
        Some(Seq::empty())
    } else {
        match episode_number(series, titles[k]) {
            None => None,
            Some(p) => match all_episode_numbers(series, titles, k + 1) {
                Some(rest) => Some(seq![p] + rest),
                None => None,
            },
        }
    }
}

/// The part of a title after the series name, trimmed, when there is one;
/// else the whole title.
pub open spec fn episode_title(series: Seq<char>, title: Seq<char>) -> Seq<char> {
    if has_prefix(title, series) && trim(title.skip(series.len() as int)).len() > 0 {
        trim(title.skip(series.len() as int))
    } else {
        title
    }
}

/// The description of a Tadoku log for episodes of a series: when every
/// title carries a season and episode number, the series name and the runs
/// of consecutive episodes per season (`Series S01E01-03, S02E05`); else the
/// series name, ` — ` and the episode titles joined by `; `.
pub open spec fn batch_description(series: Seq<char>, titles: Seq<Seq<char>>) -> Seq<char> {
    match all_episode_numbers(series, titles, 0) {
        Some(eps) => series + " "@ + join_seq(season_ranges(eps, seasons_of(eps), 0), ", "@),
        None => series + " — "@ + join_seq(
            titles.map_values(|t: Seq<char>| episode_title(series, t)),
            "; "@,
        ),
    }
}

proof fn lemma_insert_sorted_at(s: Seq<u32>, x: u32, k: int)
    requires
        0 <= k <= s.len(),
        forall|j: int| k <= j < s.len() ==> #[trigger] s[j] > x,
        k == 0 || s[k - 1] <= x,
    ensures
        insert_sorted(s, x) == (if k > 0 && s[k - 1] == x {
            s
        } else {
            s.insert(k, x)
        }),
    decreases s.len(),
{
    if s.len() == 0 {
        assert(s.insert(k, x) =~= seq![x]);
    } else if s.last() < x {
        assert(s.insert(k, x) =~= s.push(x));
    } else if s.last() == x {
    } else {
        lemma_insert_sorted_at(s.drop_last(), x, k);
        if k > 0 && s[k - 1] == x {
            assert(s.drop_last().push(s.last()) =~= s);
        } else {
            assert(s.drop_last().insert(k, x).push(s.last()) =~= s.insert(k, x));
        }
    }
}

fn insert_sorted_exec(v: &mut Vec<u32>, x: u32)
    ensures
        final(v)@ == insert_sorted(old(v)@, x),
{
    let mut k = v.len();
    while k > 0 && v[k - 1] > x
        invariant
            k <= v@.len(),
            v@ == old(v)@,
            forall|j: int| k <= j < v@.len() ==> #[trigger] v@[j] > x,
        decreases k,
    {
        k -= 1;
    }
    proof {
        lemma_insert_sorted_at(v@, x, k as int);
    }
    if k > 0 && v[k - 1] == x {
        return;
    }
    v.insert(k, x);
}

fn range_text_exec(season: u32, first: u32, last: u32) -> (r: Vec<char>)
    ensures
        r@ == range_text(season, first, last),
{
    let mut t: Vec<char> = Vec::new();
    append_str(&mut t, "S");
    append(&mut t, &u64_padded(season as u64, 2));
    append_str(&mut t, "E");
    append(&mut t, &u64_padded(first as u64, 2));
    if first != last {
        append_str(&mut t, "-");
        append(&mut t, &u64_padded(last as u64, 2));
    }
    assert(t@ =~= range_text(season, first, last));
    t
}

/// Adds the run texts of one season's ascending distinct episodes.
fn push_ranges(pieces: &mut Vec<Vec<char>>, season: u32, e: &Vec<u32>)
    ensures
        final(pieces)@.map_values(|v: Vec<char>| v@) == old(pieces)@.map_values(|v: Vec<char>| v@)
            + range_texts(season, e@, 0),
{
    let ghost start_pieces = pieces@.map_values(|v: Vec<char>| v@);
    let mut start: usize = 0;
    while start < e.len()
        invariant
            start <= e@.len(),
            pieces@.map_values(|v: Vec<char>| v@) + range_texts(season, e@, start as int) == start_pieces
                + range_texts(season, e@, 0),
        decreases e.len() - start,
    {
        proof {
            lemma_run_end(e@, start as int);
        }
        let mut end = start;
        while end + 1 < e.len() && e[end + 1] as u64 == e[end] as u64 + 1
            invariant
                start <= end < e@.len(),
                run_end(e@, start as int) == run_end(e@, end as int),
            decreases e.len() - end,
        {
            end += 1;
        }
        let text = range_text_exec(season, e[start], e[end]);
        let ghost before = pieces@.map_values(|v: Vec<char>| v@);
        pieces.push(text);
        assert(pieces@.map_values(|v: Vec<char>| v@) =~= before.push(
            range_text(season, e@[start as int], e@[end as int]),
        ));
        assert(before + range_texts(season, e@, start as int) =~= before.push(
            range_text(season, e@[start as int], e@[end as int]),
        ) + range_texts(season, e@, end + 1));
        start = end + 1;
    }
    assert(range_texts(season, e@, start as int) =~= Seq::<Seq<char>>::empty());
    assert(pieces@.map_values(|v: Vec<char>| v@) + Seq::<Seq<char>>::empty() =~= pieces@.map_values(
        |v: Vec<char>| v@,
    ));
}

/// Describes a batch of episodes of a series for its Tadoku log.
pub fn tadoku_batch_description(series_name: &str, titles: &[&str]) -> (r: String)
    ensures
        r@ == batch_description(series_name@, titles@.map_values(|t: &str| t@)),
{
    let ghost ts = titles@.map_values(|t: &str| t@);
    let mut eps: Vec<(u32, u32)> = Vec::new();
    let mut all = true;
    let mut k: usize = 0;
    while k < titles.len()
        invariant
            k <= titles@.len(),
            ts == titles@.map_values(|t: &str| t@),
            all ==> all_episode_numbers(series_name@, ts, 0) == (match all_episode_numbers(
                series_name@,
                ts,
                k as int,
            ) {
                Some(rest) => Some(eps@ + rest),
                None => None::<Seq<(u32, u32)>>,
            }),
            !all ==> all_episode_numbers(series_name@, ts, 0) is None,
        decreases titles.len() - k,
    {
        assert(ts[k as int] == titles@[k as int]@);
        match parse_episode_number(series_name, titles[k]) {
            Some(p) => {
                if all {
                    proof {
                        match all_episode_numbers(series_name@, ts, k + 1) {
                            Some(rest) => {
                                assert(eps@ + (seq![p] + rest) =~= eps@.push(p) + rest);
                            },
                            None => {},
                        }
                    }
                    eps.push(p);
                }
            },
            None => {
                all = false;
            },
        }
        k += 1;
    }
    if all {
        assert(eps@ + Seq::<(u32, u32)>::empty() =~= eps@);
        let mut seasons: Vec<u32> = Vec::new();
        let mut i: usize = 0;
        while i < eps.len()
            invariant
                i <= eps@.len(),
                seasons@ == seasons_of(eps@.take(i as int)),
            decreases eps.len() - i,
        {
            assert(eps@.take(i + 1).drop_last() =~= eps@.take(i as int));
            insert_sorted_exec(&mut seasons, eps[i].0);
            i += 1;
        }
        assert(eps@.take(eps@.len() as int) =~= eps@);
        let mut pieces: Vec<Vec<char>> = Vec::new();
        let mut j: usize = 0;
        while j < seasons.len()
            invariant
                j <= seasons@.len(),
                seasons@ == seasons_of(eps@),
                pieces@.map_values(|v: Vec<char>| v@) + season_ranges(eps@, seasons@, j as int)
                    == season_ranges(eps@, seasons@, 0),
            decreases seasons.len() - j,
        {
            let season = seasons[j];
            let mut e: Vec<u32> = Vec::new();
            let mut t: usize = 0;
            while t < eps.len()
                invariant
                    t <= eps@.len(),
                    e@ == season_episodes(eps@.take(t as int), season),
                decreases eps.len() - t,
            {
                assert(eps@.take(t + 1).drop_last() =~= eps@.take(t as int));
                if eps[t].0 == season {
                    insert_sorted_exec(&mut e, eps[t].1);
                }
                t += 1;
            }
            assert(eps@.take(eps@.len() as int) =~= eps@);
            let ghost before = pieces@.map_values(|v: Vec<char>| v@);
            push_ranges(&mut pieces, season, &e);
            assert(before + season_ranges(eps@, seasons@, j as int) =~= before + range_texts(
                season,
                e@,
                0,
            ) + season_ranges(eps@, seasons@, j + 1));
            j += 1;
        }
        assert(season_ranges(eps@, seasons@, j as int) =~= Seq::<Seq<char>>::empty());
        assert(pieces@.map_values(|v: Vec<char>| v@) + Seq::<Seq<char>>::empty() =~= pieces@.map_values(
            |v: Vec<char>| v@,
        ));
        let joined = join_chars(&pieces, &chars_of(", "));
        let mut out: Vec<char> = Vec::new();
        crate::text::append_str(&mut out, series_name);
        append_str(&mut out, " ");
        append(&mut out, &joined);
        return string_of(&out);
    }
    let series = chars_of(series_name);
    let mut parts: Vec<Vec<char>> = Vec::new();
    let mut k: usize = 0;
    while k < titles.len()
        invariant
            k <= titles@.len(),
            ts == titles@.map_values(|t: &str| t@),
            series@ == series_name@,
            parts@.map_values(|v: Vec<char>| v@) == ts.take(k as int).map_values(
                |t: Seq<char>| episode_title(series_name@, t),
            ),
        decreases titles.len() - k,
    {
        let t = chars_of(titles[k]);
        assert(t@ == ts[k as int]);
        let piece = if starts_with_chars(&t, &series) {
            let rest = trim_chars(&slice_vec(&t, series.len(), t.len()));
            assert(t@.subrange(series@.len() as int, t@.len() as int) =~= t@.skip(series@.len() as int));
            if rest.len() > 0 {
                rest
            } else {
                t
            }
        } else {
            t
        };
        assert(piece@ == episode_title(series_name@, ts[k as int]));
        let ghost before = parts@.map_values(|v: Vec<char>| v@);
        parts.push(piece);
        assert(parts@.map_values(|v: Vec<char>| v@) =~= before.push(piece@));
        assert(ts.take(k + 1).map_values(|t: Seq<char>| episode_title(series_name@, t)) =~= ts.take(
            k as int,
        ).map_values(|t: Seq<char>| episode_title(series_name@, t)).push(
            episode_title(series_name@, ts[k as int]),
        ));
        k += 1;
    }
    assert(ts.take(titles@.len() as int) =~= ts);
    let joined = join_chars(&parts, &chars_of("; "));
    let mut out: Vec<char> = Vec::new();
    append_str(&mut out, series_name);
    append_str(&mut out, " — ");
    append(&mut out, &joined);
    string_of(&out)
}

// ---------------------------------------------------------------------------
// Planning Tadoku batches
// ---------------------------------------------------------------------------

/// A history item that can be exported, with its full duration.
pub struct TadokuCandidateRow {
    pub candidate: TadokuCandidate,
    pub duration_ms: i64,
}

/// A batch to create: a series, its Tadoku description and duration, and
/// the rows it claims (positions in the candidate list, in order).
pub struct PlannedTadokuBatch {
    pub series_name: String,
    pub description: String,
    pub duration_seconds: i32,
    pub items: Vec<usize>,
}

/// The texts of a list of strings.
pub open spec fn string_texts(v: Seq<String>) -> Seq<Seq<char>> {
    v.map_values(|s: String| s@)
}

/// Whether row `k` takes part: every row when no selection is given, else
/// the rows whose history ID is selected.
pub open spec fn row_included(rows: Seq<TadokuCandidateRow>, selected: Option<Seq<Seq<char>>>, k: int) -> bool {
    match selected {
        Some(sel) => sel.contains(rows[k].candidate.history_id@),
        None => true,
    }
}

/// The positions below `n` of the included rows of a series, in order.
pub open spec fn series_rows(
    rows: Seq<TadokuCandidateRow>,
    selected: Option<Seq<Seq<char>>>,
    series: Seq<char>,
    n: int,
) -> Seq<int>
    decreases n,
{
    if n <= 0 {
        Seq::empty()
    } else {
        let g = series_rows(rows, selected, series, n - 1);
        if row_included(rows, selected, n - 1) && rows[n - 1].candidate.series_name@ == series {
            g.push(n - 1)
        } else {
            g
        }
    }
}

/// The Tadoku seconds of the given rows, added up.
pub open spec fn rows_seconds(rows: Seq<TadokuCandidateRow>, items: Seq<int>) -> int
    decreases items.len(),
{
    if items.len() == 0 {
        0
    } else {
        rows_seconds(rows, items.drop_last()) + duration_seconds_of(rows[items.last()].duration_ms as int)
    }
}

/// A number of seconds clamped to `1..=i32::MAX`.
pub open spec fn clamp_seconds(x: int) -> int {
    if x < 1 {
        1
    } else if x > i32::MAX {
        i32::MAX as int
    } else {
        x
    }
}

/// The positions of a batch as integers.
pub open spec fn item_positions(items: Seq<usize>) -> Seq<int> {
    items.map_values(|i: usize| i as int)
}

/// What the batch of a series claims and says.
pub open spec fn planned_batch_is(
    b: PlannedTadokuBatch,
    rows: Seq<TadokuCandidateRow>,
    selected: Option<Seq<Seq<char>>>,
) -> bool {
    let items = series_rows(rows, selected, b.series_name@, rows.len() as int);
    &&& item_positions(b.items@) == items
    &&& items.len() > 0
    &&& b.duration_seconds == clamp_seconds(rows_seconds(rows, items))
    &&& b.description@ == batch_description(
        b.series_name@,
        items.map_values(|i: int| rows[i].candidate.title@),
    )
}

proof fn lemma_series_rows_bounds(
    rows: Seq<TadokuCandidateRow>,
    selected: Option<Seq<Seq<char>>>,
    series: Seq<char>,
    n: int,
)
    requires
        0 <= n <= rows.len(),
    ensures
        forall|j: int| 0 <= j < series_rows(rows, selected, series, n).len() ==> {
            let i = #[trigger] series_rows(rows, selected, series, n)[j];
            0 <= i < n && row_included(rows, selected, i) && rows[i].candidate.series_name@ == series
        },
        series_rows(rows, selected, series, n).len() == 0 <==> forall|i: int|
            0 <= i < n ==> !(row_included(rows, selected, i) && #[trigger] rows[i].candidate.series_name@
                == series),
    decreases n,
{
    if n > 0 {
        lemma_series_rows_bounds(rows, selected, series, n - 1);
        let g = series_rows(rows, selected, series, n - 1);
        if row_included(rows, selected, n - 1) && rows[n - 1].candidate.series_name@ == series {
            assert forall|j: int| 0 <= j < g.push(n - 1).len() implies {
                let i = #[trigger] g.push(n - 1)[j];
                0 <= i < n && row_included(rows, selected, i) && rows[i].candidate.series_name@ == series
            } by {
                if j < g.len() {
                    assert(g.push(n - 1)[j] == g[j]);
                }
            }
        }
    }
}

fn row_is_included(rows: &[TadokuCandidateRow], selected: Option<&[String]>, k: usize) -> (r: bool)
    requires
        k < rows@.len(),
    ensures
        r == row_included(
            rows@,
            match selected {
                Some(s) => Some(string_texts(s@)),
                None => None,
            },
            k as int,
        ),
{
    match selected {
        Some(sel) => {
            let id = rows[k].candidate.history_id.as_str();
            let mut j: usize = 0;
            while j < sel.len()
                invariant
                    j <= sel@.len(),
                    k < rows@.len(),
                    selected == Some(sel),
                    id@ == rows@[k as int].candidate.history_id@,
                    forall|t: int| 0 <= t < j ==> (#[trigger] sel@[t])@ != id@,
                decreases sel.len() - j,
            {
                if str_equal(sel[j].as_str(), id) {
                    assert(string_texts(sel@)[j as int] == id@);
                    return true;
                }
                j += 1;
            }
            assert(!string_texts(sel@).contains(id@)) by {
                if string_texts(sel@).contains(id@) {
                    let t = choose|t: int| 0 <= t < string_texts(sel@).len() && string_texts(sel@)[t] == id@;
                    assert(sel@[t]@ == id@);
                }
            }
            false
        },
        None => true,
    }
}

/// The groups of included row positions by series after `n` rows: each
/// group lists exactly the rows of its series, groups are in series order,
/// and every included row has its group.
pub open spec fn groups_complete(
    names: Seq<Seq<char>>,
    groups: Seq<Seq<int>>,
    rows: Seq<TadokuCandidateRow>,
    selected: Option<Seq<Seq<char>>>,
    n: int,
) -> bool {
    &&& names.len() == groups.len()
    &&& forall|i: int| 0 <= i < groups.len() ==> #[trigger] groups[i] == series_rows(rows, selected, names[i], n)
    &&& forall|i: int| 0 <= i < groups.len() ==> (#[trigger] groups[i]).len() > 0
    &&& forall|i: int, j: int| 0 <= i < j < names.len() ==> text_less(#[trigger] names[i], #[trigger] names[j])
    &&& forall|k: int|
        0 <= k < n && row_included(rows, selected, k) ==> exists|i: int|
            0 <= i < names.len() && #[trigger] names[i] == (#[trigger] rows[k]).candidate.series_name@
}

/// Groups the included rows by series, in series order (see
/// [`groups_complete`]); each group's positions are in row order.
fn group_rows(rows: &[TadokuCandidateRow], selected: Option<&[String]>) -> (r: (Vec<String>, Vec<Vec<usize>>))
    ensures
        groups_complete(
            string_texts(r.0@),
            r.1@.map_values(|g: Vec<usize>| item_positions(g@)),
            rows@,
            match selected {
                Some(s) => Some(string_texts(s@)),
                None => None,
            },
            rows@.len() as int,
        ),
{
    let ghost sel = match selected {
        Some(s) => Some(string_texts(s@)),
        None => None,
    };
    let mut names: Vec<String> = Vec::new();
    let mut groups: Vec<Vec<usize>> = Vec::new();
    let mut k: usize = 0;
    while k < rows.len()
        invariant
            k <= rows@.len(),
            sel == (match selected {
                Some(s) => Some(string_texts(s@)),
                None => None,
            }),
            groups_complete(
                string_texts(names@),
                groups@.map_values(|g: Vec<usize>| item_positions(g@)),
                rows@,
                sel,
                k as int,
            ),
        decreases rows.len() - k,
    {
        let ghost ns = string_texts(names@);
        let ghost gs = groups@.map_values(|g: Vec<usize>| item_positions(g@));
        let ghost nk = k as int;
        proof {
            // Groups of other series are unchanged by row k.
            assert forall|i: int| 0 <= i < gs.len() && ns[i] != rows@[nk].candidate.series_name@ implies
                series_rows(rows@, sel, ns[i], nk + 1) == series_rows(rows@, sel, ns[i], nk) by {}
        }
        if !row_is_included(rows, selected, k) {
            proof {
                assert forall|i: int| 0 <= i < gs.len() implies series_rows(rows@, sel, ns[i], nk + 1)
                    == series_rows(rows@, sel, ns[i], nk) by {}
            }
            k += 1;
            continue;
        }
        let series = rows[k].candidate.series_name.as_str();
        let sc = chars_of(series);
        // The first group whose series is not before this one.
        let mut p: usize = 0;
        while p < names.len() && text_less_exec(&chars_of(names[p].as_str()), &sc)
            invariant
                p <= names@.len(),
                ns == string_texts(names@),
                sc@ == series@,
                forall|i: int| 0 <= i < p ==> text_less(#[trigger] ns[i], series@),
            decreases names.len() - p,
        {
            p += 1;
        }
        let found = p < names.len() && str_equal(names[p].as_str(), series);
        if found {
            let ghost gv = groups@;
            let mut g = groups.remove(p);
            g.push(k);
            groups.insert(p, g);
            proof {
                assert(groups@ =~= gv.update(p as int, g));
                assert(ns[p as int] == series@);
                assert(row_included(rows@, sel, nk));
                assert(series_rows(rows@, sel, ns[p as int], nk + 1) == gs[p as int].push(nk));
                let gs2 = groups@.map_values(|g: Vec<usize>| item_positions(g@));
                assert forall|i: int| 0 <= i < gs2.len() implies #[trigger] gs2[i] == series_rows(
                    rows@,
                    sel,
                    ns[i],
                    nk + 1,
                ) by {
                    assert(gs2[i] == item_positions(groups@[i]@));
                    assert(gs[i] == item_positions(gv[i]@));
                    if i == p {
                        assert(item_positions(groups@[i]@) =~= gs[i].push(nk));
                    } else {
                        assert(groups@[i] == gv[i]);
                        lemma_text_less_asymmetric(ns[i], ns[p as int]);
                        assert(ns[i] != series@);
                    }
                }
                assert(string_texts(names@) == ns);
                assert forall|i: int| 0 <= i < gs2.len() implies (#[trigger] gs2[i]).len() > 0 by {
                    assert(gs2[i] == item_positions(groups@[i]@));
                    assert(gs[i] == item_positions(gv[i]@));
                    if i == p {
                        assert(item_positions(groups@[i]@) =~= gs[i].push(nk));
                    } else {
                        assert(groups@[i] == gv[i]);
                    }
                }
            }
        } else {
            proof {
                lemma_series_rows_bounds(rows@, sel, series@, nk);
                // No earlier included row has this series, so its group is new.
                assert forall|i: int| 0 <= i < nk implies !(row_included(rows@, sel, i) && #[trigger]
                    rows@[i].candidate.series_name@ == series@) by {
                    if row_included(rows@, sel, i) && rows@[i].candidate.series_name@ == series@ {
                        let t = choose|t: int| 0 <= t < ns.len() && #[trigger] ns[t] == (#[trigger] rows@[i]).candidate.series_name@;
                        if t < p {
                            lemma_text_less_asymmetric(ns[t], series@);
                        } else if t > p {
                            lemma_text_less_asymmetric(ns[p as int], series@);
                            if ns[p as int] != series@ {
                                lemma_text_less_transitive(series@, ns[p as int], ns[t]);
                                lemma_text_less_asymmetric(series@, ns[t]);
                            }
                        }
                    }
                }
            }
            let mut g: Vec<usize> = Vec::new();
            g.push(k);
            names.insert(p, owned(series));
            groups.insert(p, g);
            proof {
                assert(item_positions(g@) =~= seq![nk]);
                assert(series_rows(rows@, sel, series@, nk) =~= Seq::<int>::empty());
                let ns2 = string_texts(names@);
                assert(ns2 =~= ns.insert(p as int, series@));
                let gs2 = groups@.map_values(|g: Vec<usize>| item_positions(g@));
                assert(gs2 =~= gs.insert(p as int, seq![nk]));
                assert forall|t: int| p <= t < ns.len() implies text_less(series@, #[trigger] ns[t]) by {
                    lemma_text_less_asymmetric(ns[p as int], series@);
                    if t > p {
                        lemma_text_less_transitive(series@, ns[p as int], ns[t]);
                    }
                }
                assert forall|i: int, j: int| 0 <= i < j < ns2.len() implies text_less(
                    #[trigger] ns2[i],
                    #[trigger] ns2[j],
                ) by {
                    if i < p && j == p {
                    } else if i < p && j > p {
                        assert(text_less(series@, ns[j - 1]));
                        lemma_text_less_transitive(ns[i], series@, ns[j - 1]);
                    } else if i == p {
                        assert(text_less(series@, ns[j - 1]));
                    }
                }
                assert forall|i: int| 0 <= i < gs2.len() implies #[trigger] gs2[i] == series_rows(
                    rows@,
                    sel,
                    ns2[i],
                    nk + 1,
                ) by {
                    if i < p {
                        lemma_text_less_asymmetric(ns[i], series@);
                    } else if i > p {
                        lemma_text_less_asymmetric(ns[i - 1], series@);
                    }
                }
            }
        }
        proof {
            let ns2 = string_texts(names@);
            let gs2 = groups@.map_values(|g: Vec<usize>| item_positions(g@));
            assert forall|t: int|
                0 <= t < nk + 1 && row_included(rows@, sel, t) implies exists|i: int|
                0 <= i < ns2.len() && #[trigger] ns2[i] == (#[trigger] rows@[t]).candidate.series_name@ by {
                if t == nk {
                    assert(ns2[p as int] == series@);
                } else {
                    let i = choose|i: int| 0 <= i < ns.len() && #[trigger] ns[i] == (#[trigger] rows@[t]).candidate.series_name@;
                    if found {
                        assert(ns2[i] == ns[i]);
                    } else if i < p {
                        assert(ns2[i] == ns[i]);
                    } else {
                        assert(ns2[i + 1] == ns[i]);
                    }
                }
            }
        }
        k += 1;
    }
    (names, groups)
}

/// The batches of the rows: each as [`planned_batch_is`] says, in series
/// order, and one for every series with an included row.
pub open spec fn batches_planned(
    r: Seq<PlannedTadokuBatch>,
    rows: Seq<TadokuCandidateRow>,
    sel: Option<Seq<Seq<char>>>,
) -> bool {
    &&& forall|i: int| 0 <= i < r.len() ==> planned_batch_is(#[trigger] r[i], rows, sel)
    &&& forall|i: int, j: int|
        0 <= i < j < r.len() ==> text_less(#[trigger] r[i].series_name@, #[trigger] r[j].series_name@)
    &&& forall|k: int|
        0 <= k < rows.len() && row_included(rows, sel, k) ==> has_batch_for(r, #[trigger] rows[k].candidate.series_name@)
}

/// Whether one of the batches is for the series.
pub open spec fn has_batch_for(r: Seq<PlannedTadokuBatch>, series: Seq<char>) -> bool {
    exists|i: int| 0 <= i < r.len() && #[trigger] r[i].series_name@ == series
}

/// The batches to create from the exportable rows (all of them, or the
/// selected history IDs): one per series with included rows, in series
/// order, claiming those rows in order, with the Tadoku seconds of its rows
/// added up and clamped to `1..=i32::MAX` and the description of
/// [`batch_description`].
pub fn plan_tadoku_batches(rows: &[TadokuCandidateRow], selected: Option<&[String]>) -> (r: Vec<PlannedTadokuBatch>)
    ensures
        batches_planned(
            r@,
            rows@,
            match selected {
                Some(s) => Some(string_texts(s@)),
                None => None,
            },
        ),
{
    let ghost sel = match selected {
        Some(s) => Some(string_texts(s@)),
        None => None,
    };
    let (names, groups) = group_rows(rows, selected);
    let ghost ns = string_texts(names@);
    let ghost gs = groups@.map_values(|g: Vec<usize>| item_positions(g@));
    let mut r: Vec<PlannedTadokuBatch> = Vec::new();
    let mut i: usize = 0;
    while i < names.len()
        invariant
            i <= names@.len(),
            ns == string_texts(names@),
            gs == groups@.map_values(|g: Vec<usize>| item_positions(g@)),
            groups_complete(ns, gs, rows@, sel, rows@.len() as int),
            r@.len() == i,
            forall|t: int| 0 <= t < i ==> planned_batch_is(#[trigger] r@[t], rows@, sel),
            forall|t: int| 0 <= t < i ==> (#[trigger] r@[t]).series_name@ == ns[t],
        decreases names.len() - i,
    {
        let group = &groups[i];
        let ghost items = gs[i as int];
        assert(items == item_positions(group@));
        proof {
            lemma_series_rows_bounds(rows@, sel, ns[i as int], rows@.len() as int);
        }
        let mut copy: Vec<usize> = Vec::new();
        let mut titles: Vec<&str> = Vec::new();
        let mut total: i128 = 0;
        let mut j: usize = 0;
        while j < group.len()
            invariant
                j <= group@.len(),
                i < ns.len(),
                items == item_positions(group@),
                items == series_rows(rows@, sel, ns[i as int], rows@.len() as int),
                forall|t: int| 0 <= t < items.len() ==> 0 <= #[trigger] items[t] < rows@.len(),
                item_positions(copy@) == items.take(j as int),
                titles@.map_values(|t: &str| t@) == items.take(j as int).map_values(
                    |x: int| rows@[x].candidate.title@,
                ),
                total == rows_seconds(rows@, items.take(j as int)),
                0 <= total <= j * 0x7FFF_FFFF,
                j <= usize::MAX,
            decreases group.len() - j,
        {
            let x = group[j];
            assert(items[j as int] == x as int);
            assert(items.take(j + 1).drop_last() =~= items.take(j as int));
            assert(items.take(j + 1).last() == x as int);
            let secs = tadoku_duration_seconds(rows[x].duration_ms as i128);
            total = total + secs as i128;
            copy.push(x);
            let ghost before = titles@;
            let title = rows[x].candidate.title.as_str();
            titles.push(title);
            assert(item_positions(copy@) =~= items.take(j + 1));
            assert(titles@.map_values(|t: &str| t@) =~= before.map_values(|t: &str| t@).push(title@));
            assert(items.take(j + 1).map_values(|x: int| rows@[x].candidate.title@) =~= items.take(
                j as int,
            ).map_values(|x: int| rows@[x].candidate.title@).push(rows@[x as int].candidate.title@));
            j += 1;
        }
        assert(items.take(j as int) =~= items);
        let duration_seconds: i32 = if total < 1 {
            1
        } else if total > 0x7FFF_FFFF {
            0x7FFF_FFFF
        } else {
            total as i32
        };
        let series = names[i].as_str();
        let description = tadoku_batch_description(series, titles.as_slice());
        r.push(PlannedTadokuBatch {
            series_name: owned(series),
            description,
            duration_seconds,
            items: copy,
        });
        i += 1;
    }
    proof {
        assert forall|a: int, b: int| 0 <= a < b < r@.len() implies text_less(
            #[trigger] r@[a].series_name@,
            #[trigger] r@[b].series_name@,
        ) by {
            assert(text_less(ns[a], ns[b]));
        }
        assert forall|k: int|
            0 <= k < rows@.len() && row_included(rows@, sel, k) implies has_batch_for(
            r@,
            #[trigger] rows@[k].candidate.series_name@,
        ) by {
            let t = choose|t: int| 0 <= t < ns.len() && #[trigger] ns[t] == (#[trigger] rows@[k]).candidate.series_name@;
            assert(r@[t].series_name@ == ns[t]);
        }
    }
    r
}

proof fn lemma_series_rows_has(
    rows: Seq<TadokuCandidateRow>,
    selected: Option<Seq<Seq<char>>>,
    series: Seq<char>,
    n: int,
    k: int,
)
    requires
        0 <= k < n <= rows.len(),
        row_included(rows, selected, k),
        rows[k].candidate.series_name@ == series,
    ensures
        series_rows(rows, selected, series, n).contains(k),
    decreases n,
{
    if k < n - 1 {
        lemma_series_rows_has(rows, selected, series, n - 1, k);
        let g = series_rows(rows, selected, series, n - 1);
        let j = choose|j: int| 0 <= j < g.len() && g[j] == k;
        if row_included(rows, selected, n - 1) && rows[n - 1].candidate.series_name@ == series {
            assert(g.push(n - 1)[j] == k);
        }
    } else {
        let g = series_rows(rows, selected, series, n - 1);
        assert(g.push(n - 1)[g.len() as int] == k);
    }
}

/// Whether batch `i` claims row `k`.
pub open spec fn claims(r: Seq<PlannedTadokuBatch>, i: int, k: int) -> bool {
    item_positions(r[i].items@).contains(k)
}

/// Tadoku batches never claim an episode twice: each row that takes part is
/// claimed by exactly one batch, and a batch claims only rows that take part.
pub proof fn lemma_batches_claim_each_row_once(
    r: Seq<PlannedTadokuBatch>,
    rows: Seq<TadokuCandidateRow>,
    sel: Option<Seq<Seq<char>>>,
)
    requires
        batches_planned(r, rows, sel),
    ensures
        forall|i: int, k: int| 0 <= i < r.len() && claims(r, i, k) ==> 0 <= k < rows.len() && row_included(rows, sel, k),
        forall|k: int|
            0 <= k < rows.len() && row_included(rows, sel, k) ==> exists|i: int| 0 <= i < r.len() && claims(r, i, k),
        forall|i: int, j: int, k: int| 0 <= i < r.len() && 0 <= j < r.len() && claims(r, i, k) && claims(r, j, k) ==> i == j,
{
    assert forall|i: int, k: int| 0 <= i < r.len() && claims(r, i, k) implies 0 <= k < rows.len() && row_included(
        rows,
        sel,
        k,
    ) by {
        assert(planned_batch_is(r[i], rows, sel));
        lemma_series_rows_bounds(rows, sel, r[i].series_name@, rows.len() as int);
        let items = item_positions(r[i].items@);
        let w = choose|w: int| 0 <= w < items.len() && items[w] == k;
        assert(series_rows(rows, sel, r[i].series_name@, rows.len() as int)[w] == k);
    }
    assert forall|k: int| 0 <= k < rows.len() && row_included(rows, sel, k) implies exists|i: int|
        0 <= i < r.len() && claims(r, i, k) by {
        assert(has_batch_for(r, rows[k].candidate.series_name@));
        let i = choose|i: int| 0 <= i < r.len() && #[trigger] r[i].series_name@ == rows[k].candidate.series_name@;
        assert(planned_batch_is(r[i], rows, sel));
        lemma_series_rows_has(rows, sel, r[i].series_name@, rows.len() as int, k);
        assert(claims(r, i, k));
    }
    assert forall|i: int, j: int, k: int|
        0 <= i < r.len() && 0 <= j < r.len() && claims(r, i, k) && claims(r, j, k) implies i == j by {
        assert(planned_batch_is(r[i], rows, sel));
        assert(planned_batch_is(r[j], rows, sel));
        lemma_series_rows_bounds(rows, sel, r[i].series_name@, rows.len() as int);
        lemma_series_rows_bounds(rows, sel, r[j].series_name@, rows.len() as int);
        let a = item_positions(r[i].items@);
        let b = item_positions(r[j].items@);
        let wa = choose|w: int| 0 <= w < a.len() && a[w] == k;
        let wb = choose|w: int| 0 <= w < b.len() && b[w] == k;
        assert(series_rows(rows, sel, r[i].series_name@, rows.len() as int)[wa] == k);
        assert(series_rows(rows, sel, r[j].series_name@, rows.len() as int)[wb] == k);
        if i != j {
            lemma_text_less_asymmetric(r[i].series_name@, r[j].series_name@);
            if i < j {
                assert(text_less(r[i].series_name@, r[j].series_name@));
            } else {
                assert(text_less(r[j].series_name@, r[i].series_name@));
            }
        }
    }
}


proof fn lemma_first_index_at(s: Seq<char>, c: char, p: int, i: int)
    requires
        0 <= i <= p < s.len(),
        s[p] == c,
        forall|j: int| 0 <= j < p ==> s[j] != c,
    ensures
        first_index_of(s, c, i) == Some(p),
    decreases p - i,
{
    if i < p {
        lemma_first_index_at(s, c, p, i + 1);
    }
}

proof fn lemma_digits_end_at(s: Seq<char>, p: int, i: int)
    requires
        0 <= i <= p <= s.len(),
        forall|j: int| 0 <= j < p ==> is_digit(#[trigger] s[j]),
        p < s.len() ==> !is_digit(s[p]),
    ensures
        digits_end(s, i) == p,
    decreases p - i,
{
    if i < p {
        lemma_digits_end_at(s, p, i + 1);
    }
}

proof fn lemma_episode_number_of(s: Seq<char>, zs: Seq<char>, ze: Seq<char>, tail: Seq<char>)
    requires
        zs.len() >= 1,
        ze.len() >= 1,
        all_digits(zs),
        all_digits(ze),
        decimal_value(zs) <= u32::MAX,
        decimal_value(ze) <= u32::MAX,
        tail.len() > 0,
        tail[0] == ' ',
    ensures
        episode_number(s, s + " S"@ + zs + "E"@ + ze + tail) == Some(
            (decimal_value(zs) as u32, decimal_value(ze) as u32),
        ),
{
    reveal_strlit(" S");
    reveal_strlit("E");
    let suffix = zs + "E"@ + ze + tail;
    let rest = seq!['S'] + suffix;
    let rest0 = seq![' '] + rest;
    let title = s + " S"@ + zs + "E"@ + ze + tail;
    assert(title =~= s + rest0);
    assert(title.take(s.len() as int) =~= s);
    assert(title.skip(s.len() as int) =~= rest0);
    assert(trim_start(rest) == rest) by {
        assert(!is_ws(rest[0]));
    }
    assert(trim_start(rest0) == rest) by {
        assert(is_ws(rest0[0]));
        assert(rest0.drop_first() =~= rest);
    }
    assert(rest.skip(1) =~= suffix);
    let p = zs.len() as int;
    assert(suffix[p] == 'E');
    assert forall|j: int| 0 <= j < p implies suffix[j] != 'E' by {
        assert(suffix[j] == zs[j]);
        assert(is_digit(zs[j]));
    }
    lemma_first_index_at(suffix, 'E', p, 0);
    assert(suffix.take(p) =~= zs);
    let after = suffix.skip(p + 1);
    assert(after =~= ze + tail);
    assert forall|j: int| 0 <= j < ze.len() implies is_digit(#[trigger] after[j]) by {
        assert(after[j] == ze[j]);
    }
    assert(after[ze.len() as int] == ' ');
    lemma_digits_end_at(after, ze.len() as int, 0);
    assert(after.take(ze.len() as int) =~= ze);
    assert(is_digit(zs[0]) && is_digit(ze[0]));
    assert(crate::text::unsigned_digits(zs) == zs);
    assert(crate::text::unsigned_digits(ze) == ze);
}

/// An episode title shown for a series item reads back as its season and
/// episode (missing ones as 0).
pub proof fn lemma_episode_number_round_trip(np: NowPlaying, series: String)
    requires
        np.series_name == Some(series),
    ensures
        episode_number(series@, display_title_text(np)) == Some(
            (
                match np.season_index {
                    Some(x) => x,
                    None => 0u32,
                },
                match np.episode_index {
                    Some(x) => x,
                    None => 0u32,
                },
            ),
        ),
{
    let sn: u32 = match np.season_index {
        Some(x) => x,
        None => 0u32,
    };
    let en: u32 = match np.episode_index {
        Some(x) => x,
        None => 0u32,
    };
    let zs = zero_padded(sn as nat, 2);
    let ze = zero_padded(en as nat, 2);
    lemma_zero_padded_value(sn as nat, 2);
    lemma_zero_padded_value(en as nat, 2);
    reveal_strlit(" - ");
    let tail = " - "@ + np.name@;
    assert(tail[0] == ' ');
    assert(display_title_text(np) =~= series@ + " S"@ + zs + "E"@ + ze + tail);
    lemma_episode_number_of(series@, zs, ze, tail);
}

// ---------------------------------------------------------------------------
// What a description claims
// ---------------------------------------------------------------------------

/// Whether every episode from `first` to `last` of the season is among the
/// parsed episodes.
pub open spec fn all_watched(eps: Seq<(u32, u32)>, season: u32, first: u32, last: u32) -> bool {
    forall|n: int| first <= n <= last ==> #[trigger] episode_parsed(eps, season, n)
}

/// Whether episode `n` of the season is among the parsed episodes.
pub open spec fn episode_parsed(eps: Seq<(u32, u32)>, season: u32, n: int) -> bool {
    exists|k: int| 0 <= k < eps.len() && #[trigger] eps[k] == (season, n as u32)
}

/// Whether some title carries episode `n` of the season.
pub open spec fn title_carries(series: Seq<char>, titles: Seq<Seq<char>>, season: u32, n: int) -> bool {
    exists|k: int| 0 <= k < titles.len() && #[trigger] episode_number(series, titles[k]) == Some((season, n as u32))
}

/// Whether a piece of a description names a range `S..E first-last` of
/// episodes that were all watched.
pub open spec fn describes_watched_run(t: Seq<char>, eps: Seq<(u32, u32)>) -> bool {
    exists|season: u32, first: u32, last: u32|
        #[trigger] range_text(season, first, last) == t && first <= last && all_watched(eps, season, first, last)
}

/// A run holds consecutive numbers.
proof fn lemma_run_consecutive(s: Seq<u32>, i: int)
    requires
        0 <= i < s.len(),
    ensures
        forall|j: int| i <= j <= run_end(s, i) ==> #[trigger] s[j] == s[i] + (j - i),
    decreases s.len() - i,
{
    lemma_run_end(s, i);
    if i + 1 < s.len() && s[i + 1] == s[i] + 1 {
        lemma_run_consecutive(s, i + 1);
    }
}

/// A value kept by `insert_sorted` was in the list or is the inserted one.
proof fn lemma_insert_sorted_has(s: Seq<u32>, x: u32, y: u32)
    requires
        insert_sorted(s, x).contains(y),
    ensures
        s.contains(y) || y == x,
    decreases s.len(),
{
    let r = insert_sorted(s, x);
    let k = choose|k: int| 0 <= k < r.len() && r[k] == y;
    if s.len() == 0 {
    } else if s.last() < x {
        if k < s.len() {
            assert(s[k] == y);
        }
    } else if s.last() == x {
    } else {
        let inner = insert_sorted(s.drop_last(), x);
        if k < inner.len() {
            assert(inner[k] == y);
            lemma_insert_sorted_has(s.drop_last(), x, y);
            if s.drop_last().contains(y) {
                let j = choose|j: int| 0 <= j < s.drop_last().len() && s.drop_last()[j] == y;
                assert(s[j] == y);
            }
        } else {
            assert(s[s.len() - 1] == y);
        }
    }
}

/// Every episode number listed for a season was parsed for that season.
proof fn lemma_season_episodes_watched(eps: Seq<(u32, u32)>, season: u32, n: u32)
    requires
        season_episodes(eps, season).contains(n),
    ensures
        exists|k: int| 0 <= k < eps.len() && #[trigger] eps[k] == (season, n),
    decreases eps.len(),
{
    if eps.len() > 0 {
        let before = season_episodes(eps.drop_last(), season);
        if eps.last().0 == season {
            lemma_insert_sorted_has(before, eps.last().1, n);
            if before.contains(n) {
                lemma_season_episodes_watched(eps.drop_last(), season, n);
                let k = choose|k: int| 0 <= k < eps.drop_last().len() && #[trigger] eps.drop_last()[k] == (season, n);
                assert(eps[k] == (season, n));
            } else {
                assert(eps[eps.len() - 1] == (season, n));
            }
        } else {
            lemma_season_episodes_watched(eps.drop_last(), season, n);
            let k = choose|k: int| 0 <= k < eps.drop_last().len() && #[trigger] eps.drop_last()[k] == (season, n);
            assert(eps[k] == (season, n));
        }
    }
}

/// Every run described from position `i` names watched episodes only.
proof fn lemma_range_texts_watched(eps: Seq<(u32, u32)>, season: u32, s: Seq<u32>, i: int)
    requires
        0 <= i,
        s == season_episodes(eps, season),
    ensures
        forall|t: int|
            0 <= t < range_texts(season, s, i).len() ==> describes_watched_run(
                #[trigger] range_texts(season, s, i)[t],
                eps,
            ),
    decreases s.len() - i,
{
    if i < s.len() {
        lemma_run_end(s, i);
        lemma_run_consecutive(s, i);
        let j = run_end(s, i);
        lemma_range_texts_watched(eps, season, s, j + 1);
        let first = s[i];
        let last = s[j];
        assert(last == first + (j - i));
        assert(all_watched(eps, season, first, last)) by {
            assert forall|n: int| first <= n <= last implies #[trigger] episode_parsed(eps, season, n) by {
                let idx = i + (n - first);
                assert(s[idx] == s[i] + (idx - i));
                assert(s.contains(n as u32));
                lemma_season_episodes_watched(eps, season, n as u32);
            }
        }
        assert(describes_watched_run(range_text(season, first, last), eps));
        let head = seq![range_text(season, first, last)];
        let rest = range_texts(season, s, j + 1);
        assert(range_texts(season, s, i) == head + rest);
        assert forall|t: int| 0 <= t < (head + rest).len() implies describes_watched_run(
            #[trigger] (head + rest)[t],
            eps,
        ) by {
            if t > 0 {
                assert((head + rest)[t] == rest[t - 1]);
            }
        }
    }
}

/// Every run described for the seasons from the `k`-th on names watched
/// episodes only.
proof fn lemma_season_ranges_watched(eps: Seq<(u32, u32)>, seasons: Seq<u32>, k: int)
    requires
        0 <= k,
    ensures
        forall|t: int|
            0 <= t < season_ranges(eps, seasons, k).len() ==> describes_watched_run(
                #[trigger] season_ranges(eps, seasons, k)[t],
                eps,
            ),
    decreases seasons.len() - k,
{
    if k < seasons.len() {
        let own = range_texts(seasons[k], season_episodes(eps, seasons[k]), 0);
        let rest = season_ranges(eps, seasons, k + 1);
        lemma_range_texts_watched(eps, seasons[k], season_episodes(eps, seasons[k]), 0);
        lemma_season_ranges_watched(eps, seasons, k + 1);
        assert forall|t: int| 0 <= t < (own + rest).len() implies describes_watched_run(
            #[trigger] (own + rest)[t],
            eps,
        ) by {
            if t >= own.len() {
                assert((own + rest)[t] == rest[t - own.len()]);
            }
        }
    }
}

/// The parsed episodes are those of the titles, in order.
proof fn lemma_all_episode_numbers(series: Seq<char>, titles: Seq<Seq<char>>, k: int, eps: Seq<(u32, u32)>)
    requires
        0 <= k <= titles.len(),
        all_episode_numbers(series, titles, k) == Some(eps),
    ensures
        eps.len() == titles.len() - k,
        forall|j: int| 0 <= j < eps.len() ==> episode_number(series, titles[k + j]) == Some(#[trigger] eps[j]),
    decreases titles.len() - k,
{
    if k < titles.len() {
        let p = episode_number(series, titles[k])->0;
        let rest = all_episode_numbers(series, titles, k + 1)->0;
        lemma_all_episode_numbers(series, titles, k + 1, rest);
        assert(eps == seq![p] + rest);
        assert forall|j: int| 0 <= j < eps.len() implies episode_number(series, titles[k + j]) == Some(
            #[trigger] eps[j],
        ) by {
            if j > 0 {
                assert(eps[j] == rest[j - 1]);
            }
        }
    }
}

/// When every title carries a season and episode, the description is the
/// series and its runs, and every run `S..E first-last` it names covers only
/// episodes that some title carries: no episode missing from the titles is
/// ever reported as watched.
pub proof fn lemma_described_runs_were_watched(series: Seq<char>, titles: Seq<Seq<char>>, eps: Seq<(u32, u32)>)
    requires
        all_episode_numbers(series, titles, 0) == Some(eps),
    ensures
        batch_description(series, titles) == series + " "@ + join_seq(season_ranges(eps, seasons_of(eps), 0), ", "@),
        forall|t: int|
            #![trigger season_ranges(eps, seasons_of(eps), 0)[t]]
            0 <= t < season_ranges(eps, seasons_of(eps), 0).len() ==> exists|season: u32, first: u32, last: u32|
                #[trigger] range_text(season, first, last) == season_ranges(eps, seasons_of(eps), 0)[t] && first
                    <= last && forall|n: int| first <= n <= last ==> #[trigger] title_carries(series, titles, season, n),
{
    lemma_all_episode_numbers(series, titles, 0, eps);
    lemma_season_ranges_watched(eps, seasons_of(eps), 0);
    let ranges = season_ranges(eps, seasons_of(eps), 0);
    assert forall|t: int| #![trigger ranges[t]] 0 <= t < ranges.len() implies exists|season: u32, first: u32, last: u32|
        #[trigger] range_text(season, first, last) == ranges[t] && first <= last && forall|n: int|
            first <= n <= last ==> #[trigger] title_carries(series, titles, season, n) by {
        assert(describes_watched_run(ranges[t], eps));
        let (season, first, last) = choose|season: u32, first: u32, last: u32|
            #[trigger] range_text(season, first, last) == ranges[t] && first <= last && all_watched(
                eps,
                season,
                first,
                last,
            );
        assert forall|n: int| first <= n <= last implies #[trigger] title_carries(series, titles, season, n) by {
            assert(episode_parsed(eps, season, n));
            let k = choose|k: int| 0 <= k < eps.len() && #[trigger] eps[k] == (season, n as u32);
            assert(episode_number(series, titles[0 + k]) == Some(eps[k]));
            assert(episode_number(series, titles[k]) == Some((season, n as u32)));
        }
        assert(range_text(season, first, last) == ranges[t]);
    }
}

/// Whether some piece names a run `S..E first-last` of the season around `n`.
pub open spec fn run_covers(pieces: Seq<Seq<char>>, season: u32, n: u32) -> bool {
    exists|t: int, first: u32, last: u32|
        #![trigger pieces[t], range_text(season, first, last)]
        0 <= t < pieces.len() && pieces[t] == range_text(season, first, last) && first <= n <= last
}

proof fn lemma_insert_sorted_keeps(s: Seq<u32>, x: u32, y: u32)
    requires
        s.contains(y) || y == x,
    ensures
        insert_sorted(s, x).contains(y),
    decreases s.len(),
{
    let r = insert_sorted(s, x);
    if s.len() == 0 {
        assert(r[0] == x);
    } else if s.last() < x {
        if y == x {
            assert(r[s.len() as int] == x);
        } else {
            let j = choose|j: int| 0 <= j < s.len() && s[j] == y;
            assert(r[j] == y);
        }
    } else if s.last() == x {
        if y == x {
            assert(s[s.len() - 1] == y);
        }
    } else {
        let inner = insert_sorted(s.drop_last(), x);
        if y == s.last() {
            assert(r[inner.len() as int] == y);
        } else {
            if s.contains(y) {
                let j = choose|j: int| 0 <= j < s.len() && s[j] == y;
                assert(s.drop_last()[j] == y);
            }
            lemma_insert_sorted_keeps(s.drop_last(), x, y);
            let j = choose|j: int| 0 <= j < inner.len() && inner[j] == y;
            assert(r[j] == y);
        }
    }
}

proof fn lemma_season_episodes_has(eps: Seq<(u32, u32)>, k: int)
    requires
        0 <= k < eps.len(),
    ensures
        season_episodes(eps, eps[k].0).contains(eps[k].1),
    decreases eps.len(),
{
    let season = eps[k].0;
    let before = season_episodes(eps.drop_last(), season);
    if k == eps.len() - 1 {
        lemma_insert_sorted_keeps(before, eps.last().1, eps[k].1);
    } else {
        assert(eps.drop_last()[k] == eps[k]);
        lemma_season_episodes_has(eps.drop_last(), k);
        if eps.last().0 == season {
            lemma_insert_sorted_keeps(before, eps.last().1, eps[k].1);
        }
    }
}

proof fn lemma_seasons_of_has(eps: Seq<(u32, u32)>, k: int)
    requires
        0 <= k < eps.len(),
    ensures
        seasons_of(eps).contains(eps[k].0),
    decreases eps.len(),
{
    let before = seasons_of(eps.drop_last());
    if k == eps.len() - 1 {
        lemma_insert_sorted_keeps(before, eps.last().0, eps[k].0);
    } else {
        assert(eps.drop_last()[k] == eps[k]);
        lemma_seasons_of_has(eps.drop_last(), k);
        lemma_insert_sorted_keeps(before, eps.last().0, eps[k].0);
    }
}

/// The runs described from position `i` cover every number from there on.
proof fn lemma_range_texts_cover(season: u32, s: Seq<u32>, i: int, idx: int)
    requires
        0 <= i <= idx < s.len(),
    ensures
        run_covers(range_texts(season, s, i), season, s[idx]),
    decreases s.len() - i,
{
    lemma_run_end(s, i);
    lemma_run_consecutive(s, i);
    let j = run_end(s, i);
    let head = seq![range_text(season, s[i], s[j])];
    let rest = range_texts(season, s, j + 1);
    assert(range_texts(season, s, i) == head + rest);
    if idx <= j {
        assert(s[idx] == s[i] + (idx - i));
        assert(s[j] == s[i] + (j - i));
        assert((head + rest)[0] == range_text(season, s[i], s[j]));
    } else {
        lemma_range_texts_cover(season, s, j + 1, idx);
        let (t, first, last) = choose|t: int, first: u32, last: u32|
            #![trigger rest[t], range_text(season, first, last)]
            0 <= t < rest.len() && rest[t] == range_text(season, first, last) && first <= s[idx] <= last;
        assert((head + rest)[t + 1] == rest[t]);
    }
}

/// The runs of the seasons from the `k`-th on cover every episode of those
/// seasons.
proof fn lemma_season_ranges_cover(eps: Seq<(u32, u32)>, seasons: Seq<u32>, k: int, kk: int, n: u32)
    requires
        0 <= k <= kk < seasons.len(),
        season_episodes(eps, seasons[kk]).contains(n),
    ensures
        run_covers(season_ranges(eps, seasons, k), seasons[kk], n),
    decreases seasons.len() - k,
{
    let own = range_texts(seasons[k], season_episodes(eps, seasons[k]), 0);
    let rest = season_ranges(eps, seasons, k + 1);
    assert(season_ranges(eps, seasons, k) == own + rest);
    if k == kk {
        let sk = season_episodes(eps, seasons[k]);
        let idx = choose|idx: int| 0 <= idx < sk.len() && sk[idx] == n;
        lemma_range_texts_cover(seasons[k], sk, 0, idx);
        let (t, first, last) = choose|t: int, first: u32, last: u32|
            #![trigger own[t], range_text(seasons[k], first, last)]
            0 <= t < own.len() && own[t] == range_text(seasons[k], first, last) && first <= n <= last;
        assert((own + rest)[t] == own[t]);
    } else {
        lemma_season_ranges_cover(eps, seasons, k + 1, kk, n);
        let (t, first, last) = choose|t: int, first: u32, last: u32|
            #![trigger rest[t], range_text(seasons[kk], first, last)]
            0 <= t < rest.len() && rest[t] == range_text(seasons[kk], first, last) && first <= n <= last;
        assert((own + rest)[own.len() + t] == rest[t]);
    }
}

/// When every title carries a season and episode, every episode a title
/// carries lies in some run `S..E first-last` of the description: no watched
/// episode is left out.
pub proof fn lemma_watched_episodes_are_described(series: Seq<char>, titles: Seq<Seq<char>>, eps: Seq<(u32, u32)>)
    requires
        all_episode_numbers(series, titles, 0) == Some(eps),
    ensures
        forall|k: int|
            0 <= k < titles.len() ==> match #[trigger] episode_number(series, titles[k]) {
                Some((season, n)) => run_covers(season_ranges(eps, seasons_of(eps), 0), season, n),
                None => false,
            },
{
    lemma_all_episode_numbers(series, titles, 0, eps);
    assert forall|k: int| 0 <= k < titles.len() implies match #[trigger] episode_number(series, titles[k]) {
        Some((season, n)) => run_covers(season_ranges(eps, seasons_of(eps), 0), season, n),
        None => false,
    } by {
        assert(episode_number(series, titles[0 + k]) == Some(eps[k]));
        let season = eps[k].0;
        let n = eps[k].1;
        lemma_seasons_of_has(eps, k);
        lemma_season_episodes_has(eps, k);
        let seasons = seasons_of(eps);
        let kk = choose|kk: int| 0 <= kk < seasons.len() && seasons[kk] == season;
        lemma_season_ranges_cover(eps, seasons, 0, kk, n);
    }
}

} // verus!

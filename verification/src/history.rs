//! The watch history: what is kept of each watched item (its last position
//! and when it was last watched), when the history is written out, and which
//! watched items are offered as Tadoku log candidates.
use vstd::prelude::*;
use crate::config::MediaServerKind;
use crate::media_server::{MediaStream, StreamType};
use crate::text::{
    chars_of, lower_chars, lower_seq, opt_view, owned, seq_equal, str_equal, string_of, to_lowercase_text, trim,
    trim_chars, unicode_lower,
};

verus! {

/// The least time between two history writes that only record positions (ms).
pub const POSITION_SAVE_INTERVAL_MS: u64 = 5_000;

/// A watched item, kept so it can be mined and logged later.
pub struct HistoryEntry {
    pub history_id: String,
    pub server_kind: MediaServerKind,
    pub item_id: String,
    pub title: String,
    pub series_name: Option<String>,
    pub media_source_id: String,
    pub file_path: Option<String>,
    pub duration_ms: Option<i64>,
    pub subtitle_count: u64,
    /// Audio languages the media server reported for the item.
    pub audio_languages: Vec<String>,
    pub last_position_ms: i64,
    /// When the item was last watched (ms since the epoch).
    pub last_seen_ms: i64,
}

/// When an entry counts as watched again after a position report: while
/// playing, or when the position moved. A paused session checking in with an
/// unchanged position leaves it as it was.
pub open spec fn seen_after_report(e: HistoryEntry, position_ms: i64, playing: bool, activity_at_ms: i64) -> i64 {
    if playing || e.last_position_ms != position_ms {
        activity_at_ms
    } else {
        e.last_seen_ms
    }
}

/// The entry after a position report.
pub open spec fn after_position_report(
    e: HistoryEntry,
    position_ms: i64,
    playing: bool,
    activity_at_ms: i64,
) -> HistoryEntry {
    HistoryEntry {
        last_position_ms: position_ms,
        last_seen_ms: seen_after_report(e, position_ms, playing, activity_at_ms),
        ..e
    }
}

/// Records a reported position: the entry keeps the latest position, and
/// counts as watched at `activity_at_ms` while playing or when the position
/// moved.
pub fn record_position(entry: &mut HistoryEntry, position_ms: i64, playing: bool, activity_at_ms: i64)
    ensures
        *final(entry) == after_position_report(*old(entry), position_ms, playing, activity_at_ms),
{
    let moved = entry.last_position_ms != position_ms;
    entry.last_position_ms = position_ms;
    if playing || moved {
        entry.last_seen_ms = activity_at_ms;
    }
}

/// Whether the history is written now: always when forced (a new item, an
/// ended playback, a subtitle change), else once
/// [`POSITION_SAVE_INTERVAL_MS`] have passed since the last write or failed
/// attempt.
pub open spec fn save_due(force: bool, last_save_ms: u64, now_ms: u64) -> bool {
    force || (now_ms >= last_save_ms && now_ms - last_save_ms >= POSITION_SAVE_INTERVAL_MS)
}

/// Whether the history is written now (see [`save_due`]).
pub fn history_save_due(force: bool, last_save_ms: u64, now_ms: u64) -> (r: bool)
    ensures
        r == save_due(force, last_save_ms, now_ms),
{
    force || (now_ms >= last_save_ms && now_ms - last_save_ms >= POSITION_SAVE_INTERVAL_MS)
}

/// The languages of the audio streams among the first `n` streams, in order.
pub open spec fn audio_languages_upto(streams: Seq<MediaStream>, n: int) -> Seq<Seq<char>>
    decreases n,
{
    if n <= 0 {
        Seq::empty()
    } else {
        let s = streams[n - 1];
        let before = audio_languages_upto(streams, n - 1);
        match s.language {
            Some(l) => if s.stream_type == StreamType::Audio {
                before.push(l@)
            } else {
                before
            },
            None => before,
        }
    }
}

/// The languages of an item's audio streams, in order, as the history
/// keeps them.
pub fn audio_languages_of(streams: &Vec<MediaStream>) -> (r: Vec<String>)
    ensures
        r@.map_values(|s: String| s@) == audio_languages_upto(streams@, streams@.len() as int),
{
    let mut r: Vec<String> = Vec::new();
    let mut k: usize = 0;
    while k < streams.len()
        invariant
            k <= streams@.len(),
            r@.map_values(|s: String| s@) == audio_languages_upto(streams@, k as int),
        decreases streams.len() - k,
    {
        let s = &streams[k];
        let ghost before = r@;
        match &s.language {
            Some(l) => {
                if s.stream_type == StreamType::Audio {
                    r.push(owned(l.as_str()));
                    assert(r@.map_values(|s: String| s@) =~= before.map_values(|s: String| s@).push(l@));
                }
            },
            None => {},
        }
        k += 1;
    }
    r
}

// ---------------------------------------------------------------------------
// Tadoku candidates
// ---------------------------------------------------------------------------

/// What the history holds of an item for Tadoku logs.
pub struct HistoryRow {
    pub history_id: String,
    pub series_name: Option<String>,
    pub title: String,
    /// When the item was last watched (ms since the epoch).
    pub last_seen_ms: i64,
    pub duration_ms: Option<i64>,
    pub last_position_ms: i64,
}

/// The show an item is logged under: its series, or its title when the
/// series is missing or empty.
pub open spec fn show_name(r: HistoryRow) -> Seq<char> {
    match r.series_name {
        Some(s) => if s@.len() > 0 {
            s@
        } else {
            r.title@
        },
        None => r.title@,
    }
}

/// Whether an item was watched far enough to count: it has a positive
/// duration and was watched past 80% of it.
pub open spec fn watched_enough(r: HistoryRow) -> bool {
    match r.duration_ms {
        Some(d) => d > 0 && r.last_position_ms > 0 && r.last_position_ms * 100 >= d * 80,
        None => false,
    }
}

/// Whether an exported item is the same episode as `r`: the same show and
/// title, ASCII case ignored.
pub open spec fn same_episode(a: HistoryRow, b: HistoryRow) -> bool {
    &&& lower_seq(show_name(a)) == lower_seq(show_name(b))
    &&& lower_seq(a.title@) == lower_seq(b.title@)
}

/// Whether some exported history item is the same episode as `r`.
pub open spec fn episode_exported(rows: Seq<HistoryRow>, exported: Seq<Seq<char>>, r: HistoryRow) -> bool {
    exists|j: int| 0 <= j < rows.len() && exported.contains(#[trigger] rows[j].history_id@) && same_episode(rows[j], r)
}

/// The settings of a candidate query: the export items already claimed,
/// the episodes the user declined, the series of pending batches of the
/// language, and the history start.
pub struct CandidateFilter {
    pub exported_ids: Vec<String>,
    pub declined_ids: Vec<String>,
    pub pending_series: Vec<String>,
    pub cutoff_ms: i64,
}

/// The view of a candidate filter.
pub struct CandidateFilterView {
    pub exported_ids: Seq<Seq<char>>,
    pub declined_ids: Seq<Seq<char>>,
    pub pending_series: Seq<Seq<char>>,
    pub cutoff_ms: i64,
}

impl View for CandidateFilter {
    type V = CandidateFilterView;

    open spec fn view(&self) -> CandidateFilterView {
        CandidateFilterView {
            exported_ids: self.exported_ids@.map_values(|s: String| s@),
            declined_ids: self.declined_ids@.map_values(|s: String| s@),
            pending_series: self.pending_series@.map_values(|s: String| s@),
            cutoff_ms: self.cutoff_ms,
        }
    }
}

/// Whether a history item may be offered: watched far enough, since the
/// history start, not declined, not claimed by an export item, not the same
/// episode as an exported item, and not of a series with a pending batch.
pub open spec fn open_candidate(rows: Seq<HistoryRow>, f: CandidateFilterView, r: HistoryRow) -> bool {
    &&& watched_enough(r)
    &&& r.last_seen_ms >= f.cutoff_ms
    &&& !f.declined_ids.contains(r.history_id@)
    &&& !f.exported_ids.contains(r.history_id@)
    &&& !episode_exported(rows, f.exported_ids, r)
    &&& !f.pending_series.contains(show_name(r))
}

/// The key by which two offered items are the same content: show and title,
/// trimmed and in Unicode lower case.
pub open spec fn content_key(r: HistoryRow) -> (Seq<char>, Seq<char>) {
    (unicode_lower(trim(show_name(r))), unicode_lower(trim(r.title@)))
}

/// Whether an earlier offered position has the same content key.
pub open spec fn content_taken(rows: Seq<HistoryRow>, taken: Seq<usize>, r: HistoryRow) -> bool {
    exists|t: int| 0 <= t < taken.len() && content_key(rows[#[trigger] taken[t] as int]) == content_key(r)
}

/// The positions, among the first `n` rows, of the items offered: the open
/// candidates, the first of each content key only, in order.
pub open spec fn candidates_upto(rows: Seq<HistoryRow>, f: CandidateFilterView, n: int) -> Seq<usize>
    decreases n,
{
    if n <= 0 {
        Seq::empty()
    } else {
        let before = candidates_upto(rows, f, n - 1);
        if open_candidate(rows, f, rows[n - 1]) && !content_taken(rows, before, rows[n - 1]) {
            before.push((n - 1) as usize)
        } else {
            before
        }
    }
}

/// The offered positions of all rows.
pub open spec fn candidates(rows: Seq<HistoryRow>, f: CandidateFilterView) -> Seq<usize> {
    candidates_upto(rows, f, rows.len() as int)
}

fn contains_text(list: &Vec<String>, text: &str) -> (r: bool)
    ensures
        r == list@.map_values(|s: String| s@).contains(text@),
{
    let ghost texts = list@.map_values(|s: String| s@);
    let mut k: usize = 0;
    while k < list.len()
        invariant
            k <= list@.len(),
            texts == list@.map_values(|s: String| s@),
            forall|i: int| 0 <= i < k ==> texts[i] != text@,
        decreases list.len() - k,
    {
        if str_equal(list[k].as_str(), text) {
            assert(texts[k as int] == text@);
            return true;
        }
        k += 1;
    }
    proof {
        if texts.contains(text@) {
            let i = choose|i: int| 0 <= i < texts.len() && texts[i] == text@;
            assert(texts[i] != text@);
        }
    }
    false
}

/// The show an item is logged under (see [`show_name`]).
pub fn row_show_name(r: &HistoryRow) -> (s: &str)
    ensures
        s@ == show_name(*r),
{
    match &r.series_name {
        Some(s) => if !s.as_str().is_empty() {
            s.as_str()
        } else {
            r.title.as_str()
        },
        None => r.title.as_str(),
    }
}

fn watched_enough_exec(r: &HistoryRow) -> (b: bool)
    ensures
        b == watched_enough(*r),
{
    match r.duration_ms {
        Some(d) => d > 0 && r.last_position_ms > 0 && (r.last_position_ms as i128) * 100 >= (d as i128) * 80,
        None => false,
    }
}

fn same_episode_exec(a: &HistoryRow, b: &HistoryRow) -> (r: bool)
    ensures
        r == same_episode(*a, *b),
{
    seq_equal(&lower_chars(&chars_of(row_show_name(a))), &lower_chars(&chars_of(row_show_name(b))))
        && seq_equal(&lower_chars(&chars_of(a.title.as_str())), &lower_chars(&chars_of(b.title.as_str())))
}

fn episode_exported_exec(rows: &Vec<HistoryRow>, exported: &Vec<String>, r: &HistoryRow) -> (b: bool)
    ensures
        b == episode_exported(rows@, exported@.map_values(|s: String| s@), *r),
{
    let ghost ex = exported@.map_values(|s: String| s@);
    let mut j: usize = 0;
    while j < rows.len()
        invariant
            j <= rows@.len(),
            ex == exported@.map_values(|s: String| s@),
            forall|i: int| 0 <= i < j ==> !(ex.contains(#[trigger] rows@[i].history_id@) && same_episode(rows@[i], *r)),
        decreases rows.len() - j,
    {
        if contains_text(exported, rows[j].history_id.as_str()) && same_episode_exec(&rows[j], r) {
            return true;
        }
        j += 1;
    }
    false
}

/// The content key of a row (see [`content_key`]).
fn content_key_exec(r: &HistoryRow) -> (k: (String, String))
    ensures
        (k.0@, k.1@) == content_key(*r),
{
    let show = string_of(&trim_chars(&chars_of(row_show_name(r))));
    let title = string_of(&trim_chars(&chars_of(r.title.as_str())));
    (to_lowercase_text(show.as_str()), to_lowercase_text(title.as_str()))
}

/// The history items offered as Tadoku log candidates (see [`candidates`]):
/// their positions among `rows`, in order.
pub fn tadoku_candidate_positions(rows: &Vec<HistoryRow>, filter: &CandidateFilter) -> (r: Vec<usize>)
    ensures
        r@ == candidates(rows@, filter@),
{
    let ghost f = filter@;
    let mut r: Vec<usize> = Vec::new();
    let mut keys: Vec<(String, String)> = Vec::new();
    let mut k: usize = 0;
    while k < rows.len()
        invariant
            k <= rows@.len(),
            f == filter@,
            r@ == candidates_upto(rows@, f, k as int),
            keys@.len() == r@.len(),
            forall|t: int| 0 <= t < r@.len() ==> r@[t] < k,
            forall|t: int|
                0 <= t < keys@.len() ==> (#[trigger] keys@[t].0@, keys@[t].1@) == content_key(rows@[r@[t] as int]),
        decreases rows.len() - k,
    {
        let row = &rows[k];
        let open = watched_enough_exec(row) && row.last_seen_ms >= filter.cutoff_ms
            && !contains_text(&filter.declined_ids, row.history_id.as_str())
            && !contains_text(&filter.exported_ids, row.history_id.as_str())
            && !episode_exported_exec(rows, &filter.exported_ids, row)
            && !contains_text(&filter.pending_series, row_show_name(row));
        if open {
            let key = content_key_exec(row);
            let mut seen = false;
            let mut t: usize = 0;
            while t < keys.len()
                invariant
                    t <= keys@.len(),
                    keys@.len() == r@.len(),
                    forall|u: int|
                        0 <= u < keys@.len() ==> (#[trigger] keys@[u].0@, keys@[u].1@) == content_key(rows@[r@[u] as int]),
                    seen == exists|u: int| 0 <= u < t && content_key(rows@[#[trigger] r@[u] as int]) == content_key(*row),
                    (key.0@, key.1@) == content_key(*row),
                decreases keys.len() - t,
            {
                if str_equal(keys[t].0.as_str(), key.0.as_str()) && str_equal(keys[t].1.as_str(), key.1.as_str()) {
                    assert(content_key(rows@[r@[t as int] as int]) == content_key(*row));
                    seen = true;
                }
                proof {
                    if !seen {
                        assert forall|u: int| 0 <= u < t + 1 implies content_key(rows@[#[trigger] r@[u] as int])
                            != content_key(*row) by {
                            if u == t {
                                assert((keys@[u].0@, keys@[u].1@) == content_key(rows@[r@[u] as int]));
                            }
                        }
                    }
                }
                t += 1;
            }
            assert(seen == content_taken(rows@, r@, *row));
            if !seen {
                r.push(k);
                keys.push(key);
            }
        }
        k += 1;
    }
    r
}

/// Every offered item is an open candidate among the first `n` rows.
proof fn lemma_candidates_open(rows: Seq<HistoryRow>, f: CandidateFilterView, n: int)
    requires
        0 <= n <= rows.len(),
        rows.len() <= usize::MAX,
    ensures
        forall|t: int|
            0 <= t < candidates_upto(rows, f, n).len() ==> 0 <= #[trigger] candidates_upto(rows, f, n)[t] < n
                && open_candidate(rows, f, rows[candidates_upto(rows, f, n)[t] as int]),
    decreases n,
{
    if n > 0 {
        lemma_candidates_open(rows, f, n - 1);
        let before = candidates_upto(rows, f, n - 1);
        let now = candidates_upto(rows, f, n);
        assert forall|t: int| 0 <= t < now.len() implies 0 <= #[trigger] now[t] < n && open_candidate(
            rows,
            f,
            rows[now[t] as int],
        ) by {
            if t < before.len() {
                assert(now[t] == before[t]);
            } else {
                assert(now[t] == (n - 1) as usize);
            }
        }
    }
}

/// An episode that is claimed for a log (its history ID recorded as an
/// export item) is never offered again: no later query with that claim
/// offers the item itself or another item that is the same episode.
pub proof fn lemma_claimed_episode_never_offered_again(rows: Seq<HistoryRow>, f: CandidateFilterView, i: int)
    requires
        0 <= i < rows.len(),
        rows.len() <= usize::MAX,
    ensures
        forall|t: int|
            0 <= t < candidates(rows, CandidateFilterView { exported_ids: f.exported_ids.push(rows[i].history_id@), ..f }).len() ==> {
                let j = #[trigger] candidates(
                    rows,
                    CandidateFilterView { exported_ids: f.exported_ids.push(rows[i].history_id@), ..f },
                )[t] as int;
                rows[j].history_id@ != rows[i].history_id@ && !same_episode(rows[i], rows[j])
            },
{
    let g = CandidateFilterView { exported_ids: f.exported_ids.push(rows[i].history_id@), ..f };
    lemma_candidates_open(rows, g, rows.len() as int);
    let c = candidates(rows, g);
    assert(g.exported_ids.contains(rows[i].history_id@)) by {
        assert(g.exported_ids[f.exported_ids.len() as int] == rows[i].history_id@);
    }
    assert forall|t: int| 0 <= t < c.len() implies {
        let j = #[trigger] c[t] as int;
        rows[j].history_id@ != rows[i].history_id@ && !same_episode(rows[i], rows[j])
    } by {
        let j = c[t] as int;
        assert(open_candidate(rows, g, rows[j]));
        if same_episode(rows[i], rows[j]) {
            assert(episode_exported(rows, g.exported_ids, rows[j]));
        }
    }
}

/// Within one query no two offered items have the same content key.
pub proof fn lemma_offered_content_distinct(rows: Seq<HistoryRow>, f: CandidateFilterView, n: int)
    requires
        0 <= n <= rows.len(),
        rows.len() <= usize::MAX,
    ensures
        forall|s: int, t: int|
            0 <= s < t < candidates_upto(rows, f, n).len() ==> content_key(
                rows[#[trigger] candidates_upto(rows, f, n)[s] as int],
            ) != content_key(rows[#[trigger] candidates_upto(rows, f, n)[t] as int]),
    decreases n,
{
    if n > 0 {
        lemma_offered_content_distinct(rows, f, n - 1);
        lemma_candidates_open(rows, f, n - 1);
        let before = candidates_upto(rows, f, n - 1);
        let now = candidates_upto(rows, f, n);
        if now.len() > before.len() {
            assert forall|s: int, t: int| 0 <= s < t < now.len() implies content_key(rows[#[trigger] now[s] as int])
                != content_key(rows[#[trigger] now[t] as int]) by {
                if t == before.len() {
                    assert(now[s] == before[s]);
                    assert(now[t] == (n - 1) as usize);
                    assert(!content_taken(rows, before, rows[n - 1]));
                    assert(content_key(rows[before[s] as int]) != content_key(rows[n - 1]));
                } else {
                    assert(now[s] == before[s]);
                    assert(now[t] == before[t]);
                }
            }
        }
    }
}

/// How long a failed or interrupted daily Tadoku export waits before it is
/// tried again (ms).
pub const TADOKU_RETRY_AFTER_MS: i64 = 1_800_000;

/// Where the daily Tadoku export of a date stands.
#[derive(Clone, Copy, Debug, PartialEq, Eq, Structural)]
pub enum ExportRunStatus {
    Running,
    Completed,
    Failed,
}

/// Whether the daily export of a date is due: it never ran, or it did not
/// complete and its last attempt is at least [`TADOKU_RETRY_AFTER_MS`] old.
pub open spec fn export_due(run: Option<(ExportRunStatus, i64)>, now_ms: i64) -> bool {
    match run {
        None => true,
        Some((status, last_attempt_ms)) => status != ExportRunStatus::Completed && now_ms - last_attempt_ms
            >= TADOKU_RETRY_AFTER_MS,
    }
}

/// Whether the daily Tadoku export of a date is due (see [`export_due`]).
pub fn tadoku_export_due(run: Option<(ExportRunStatus, i64)>, now_ms: i64) -> (r: bool)
    ensures
        r == export_due(run, now_ms),
{
    match run {
        None => true,
        Some((status, last_attempt_ms)) => {
            status != ExportRunStatus::Completed && (now_ms as i128) - (last_attempt_ms as i128)
                >= TADOKU_RETRY_AFTER_MS as i128
        },
    }
}

/// Whether two history items are the same content: the same show and the
/// same title, leading and trailing spaces and letter case ignored.
pub open spec fn same_show_and_title(a: HistoryRow, b: HistoryRow) -> bool {
    &&& unicode_lower(trim(show_name(a))) == unicode_lower(trim(show_name(b)))
    &&& unicode_lower(trim(a.title@)) == unicode_lower(trim(b.title@))
}

/// Row `n` is offered exactly when it is an open candidate and no earlier
/// offered row has the same show and the same title: an open row is merged
/// only into an earlier one of the same show and title, so rows of
/// different shows are never merged.
pub proof fn lemma_only_same_show_and_title_are_merged(rows: Seq<HistoryRow>, f: CandidateFilterView, n: int)
    requires
        0 <= n < rows.len(),
        rows.len() <= usize::MAX,
    ensures
        candidates_upto(rows, f, n + 1).contains(n as usize) <==> (open_candidate(rows, f, rows[n]) && !exists|
            t: int,
        |
            0 <= t < candidates_upto(rows, f, n).len() && same_show_and_title(
                rows[#[trigger] candidates_upto(rows, f, n)[t] as int],
                rows[n],
            )),
{
    lemma_candidates_open(rows, f, n);
    let before = candidates_upto(rows, f, n);
    assert forall|t: int| 0 <= t < before.len() implies content_key(rows[#[trigger] before[t] as int])
        == content_key(rows[n]) <==> same_show_and_title(rows[before[t] as int], rows[n]) by {}
    if before.contains(n as usize) {
        let t = choose|t: int| 0 <= t < before.len() && before[t] == n as usize;
        assert(before[t] < n);
    }
    if open_candidate(rows, f, rows[n]) && !content_taken(rows, before, rows[n]) {
        assert(candidates_upto(rows, f, n + 1) == before.push(n as usize));
        assert(candidates_upto(rows, f, n + 1)[before.len() as int] == n as usize);
    }
}

/// Every offered item has a positive duration and was watched past four
/// fifths of it, at or after the history start; it is neither declined nor
/// claimed by an export item, and no batch of its show is pending.
pub proof fn lemma_offered_items_qualify(rows: Seq<HistoryRow>, f: CandidateFilterView)
    requires
        rows.len() <= usize::MAX,
    ensures
        forall|t: int|
            0 <= t < candidates(rows, f).len() ==> {
                let r = rows[#[trigger] candidates(rows, f)[t] as int];
                &&& match r.duration_ms {
                    Some(d) => d > 0 && r.last_position_ms > 0 && 5 * r.last_position_ms >= 4 * d,
                    None => false,
                }
                &&& r.last_seen_ms >= f.cutoff_ms
                &&& !f.declined_ids.contains(r.history_id@)
                &&& !f.exported_ids.contains(r.history_id@)
                &&& !f.pending_series.contains(show_name(r))
            },
{
    lemma_candidates_open(rows, f, rows.len() as int);
}

} // verus!

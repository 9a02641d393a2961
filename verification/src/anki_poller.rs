//! How new Anki notes reach Nagare: AnkiBeacon pushes them while its
//! heartbeat is fresh; otherwise AnkiConnect is polled, while a playback
//! session is live or within the grace period after one. The decisions are
//! a state machine: an event (a clock tick, the answer of an AnkiConnect
//! call, a pushed event) gives the next state and the actions to perform.
use vstd::prelude::*;
use crate::anki::{
    AnkiConnectionState, HeartbeatState, NewCardEvent, NewCardNotification, NoteInfo, MAX_NOTE_AGE_SECS,
    SESSION_POLL_GRACE_MS, elapsed_ms, field_value, new_note_ids, note_info_to_event, offered_note,
    should_skip_note, skips_note, stale_after_ms, time_until_stale,
};
use crate::config::AnkiConfig;
use crate::media_server::div_toward_zero;
use crate::text::{append_str, opt_view, owned, string_of};

verus! {

/// Consecutive failed polls after which Anki counts as disconnected.
pub const DISCONNECT_AFTER_ERRORS: u32 = 5;

/// The longest wait between failed polls, in milliseconds.
pub const MAX_POLL_BACKOFF_MS: u64 = 5_000;

/// What the poller remembers between events; times in milliseconds of a
/// monotonic clock.
pub struct AnkiPollerState {
    /// The note IDs of the last poll.
    pub known_ids: Vec<i64>,
    /// Whether a poll has recorded the known notes.
    pub initialized: bool,
    /// Whether polling has been shut down for lack of a live session.
    pub idle: bool,
    pub heartbeat: Option<HeartbeatState>,
    /// The pushed notes already handled.
    pub processed: Vec<i64>,
    pub next_poll_at_ms: Option<u64>,
    pub last_live_ms: Option<u64>,
    /// Whether a session was live at the last tick.
    pub live: bool,
    pub consecutive_errors: u32,
}

/// The poller state as values.
pub struct PollerView {
    pub known_ids: Seq<i64>,
    pub initialized: bool,
    pub idle: bool,
    pub heartbeat: Option<HeartbeatState>,
    pub processed: Seq<i64>,
    pub next_poll_at_ms: Option<u64>,
    pub last_live_ms: Option<u64>,
    pub live: bool,
    pub consecutive_errors: u32,
}

impl View for AnkiPollerState {
    type V = PollerView;

    open spec fn view(&self) -> PollerView {
        PollerView {
            known_ids: self.known_ids@,
            initialized: self.initialized,
            idle: self.idle,
            heartbeat: self.heartbeat,
            processed: self.processed@,
            next_poll_at_ms: self.next_poll_at_ms,
            last_live_ms: self.last_live_ms,
            live: self.live,
            consecutive_errors: self.consecutive_errors,
        }
    }
}

/// What happened.
pub enum AnkiPollerEvent {
    /// The loop comes round; `live` tells whether a session is live.
    Tick { now_ms: u64, live: bool },
    /// AnkiConnect listed today's notes.
    NotesFound { now_ms: u64, ids: Vec<i64> },
    /// Listing the notes failed.
    FindFailed { now_ms: u64, error: String },
    /// AnkiBeacon sent a heartbeat.
    Heartbeat { now_ms: u64, session_id: Option<String>, interval_ms: u64 },
    /// AnkiBeacon reported a new note, with its content when the payload
    /// carries it.
    NoteAdded { note_id: Option<i64>, note: Option<NoteInfo>, card_ids: Option<Vec<i64>> },
    /// AnkiConnect described the requested notes.
    NotesFetched { notes: Vec<NoteInfo>, card_ids: Option<Vec<i64>>, push_note: Option<i64> },
    /// Describing the requested notes failed.
    FetchFailed { push_note: Option<i64>, error: String },
}

/// What to do.
pub enum AnkiPollerAction {
    /// Wait that long for the next tick, or (`None`) until the next event.
    Wait(Option<u64>),
    /// List today's notes (`added:1`).
    FindNotes,
    /// Describe these notes; `push_note` is the pushed note they answer.
    FetchNotes { ids: Vec<i64>, push_note: Option<i64>, card_ids: Option<Vec<i64>> },
    /// Offer a new note for enrichment.
    Offer(NewCardNotification),
    /// Show this Anki status.
    SetStatus(AnkiConnectionState, Option<String>),
}

impl AnkiPollerState {
    /// The state before any event.
    pub fn new() -> (r: Self)
        ensures
            r@ == (PollerView {
                known_ids: Seq::empty(),
                initialized: false,
                idle: false,
                heartbeat: None,
                processed: Seq::empty(),
                next_poll_at_ms: None,
                last_live_ms: None,
                live: false,
                consecutive_errors: 0,
            }),
    {
        AnkiPollerState {
            known_ids: Vec::new(),
            initialized: false,
            idle: false,
            heartbeat: None,
            processed: Vec::new(),
            next_poll_at_ms: None,
            last_live_ms: None,
            live: false,
            consecutive_errors: 0,
        }
    }
}

/// Whether the action shows this status and message.
pub open spec fn status_is(a: AnkiPollerAction, st: AnkiConnectionState, msg: Option<Seq<char>>) -> bool {
    match a {
        AnkiPollerAction::SetStatus(s, m) => s == st && opt_view(m) == msg,
        _ => false,
    }
}

/// Whether the action waits this long.
pub open spec fn wait_is(a: AnkiPollerAction, w: Option<u64>) -> bool {
    match a {
        AnkiPollerAction::Wait(x) => x == w,
        _ => false,
    }
}

/// The status message while polling waits for a session.
pub open spec fn idle_message() -> Seq<char> {
    "Waiting for an active playback session before polling AnkiConnect fallback."@
}

/// The status message once AnkiConnect cannot be reached.
pub open spec fn unreachable_message(url: Seq<char>, error: Seq<char>) -> Seq<char> {
    "Cannot reach AnkiConnect at "@ + url
        + ". Card enrichment will stay unavailable until Anki is running. Last error: "@ + error
}

/// The polling grace left at `now` after the last live session.
pub open spec fn grace_left(last_live_ms: Option<u64>, now_ms: u64) -> Option<int> {
    match last_live_ms {
        Some(t) => if elapsed_ms(t, now_ms) < SESSION_POLL_GRACE_MS {
            Some(SESSION_POLL_GRACE_MS - elapsed_ms(t, now_ms))
        } else {
            None
        },
        None => None,
    }
}

/// Whether the heartbeat is fresh at `now`.
pub open spec fn fresh(h: Option<HeartbeatState>, now_ms: u64) -> bool {
    h matches Some(b) && elapsed_ms(b.received_at_ms, now_ms) < stale_after_ms(b.interval_ms)
}

/// A wait after a poll: as is while a session is live, else cut to the
/// grace left (none left: no wait).
pub open spec fn capped_wait(s: PollerView, now_ms: u64, w: int) -> int {
    if s.live {
        w
    } else {
        match grace_left(s.last_live_ms, now_ms) {
            Some(g) => if w < g {
                w
            } else {
                g
            },
            None => 0,
        }
    }
}

/// `a + b`, saturating at `u64::MAX`.
pub open spec fn sat_add(a: u64, b: int) -> u64 {
    if a + b > u64::MAX {
        u64::MAX
    } else {
        (a + b) as u64
    }
}

/// `x` doubled `k` times.
pub open spec fn doubled(x: int, k: nat) -> int
    decreases k,
{
    if k == 0 {
        x
    } else {
        2 * doubled(x, (k - 1) as nat)
    }
}

/// The wait after the `errors`-th failed poll in a row: the polling rate
/// doubled for each earlier failure (at most ten doublings), at most five
/// seconds.
pub open spec fn backoff_ms(base: u64, errors: u32) -> int {
    let doublings = if errors - 1 < 10 {
        errors - 1
    } else {
        10
    };
    let b = doubled(base as int, doublings as nat);
    if b < MAX_POLL_BACKOFF_MS {
        b
    } else {
        MAX_POLL_BACKOFF_MS as int
    }
}

// ---------------------------------------------------------------------------
// Ticks
// ---------------------------------------------------------------------------

/// The state after the liveness of a tick is noted.
pub open spec fn noted_live(s: PollerView, now_ms: u64, live: bool) -> PollerView {
    if live {
        PollerView { last_live_ms: Some(now_ms), idle: false, live: true, ..s }
    } else {
        PollerView { live: false, ..s }
    }
}

/// Whether polling may run at the tick: a session is live or grace is left.
pub open spec fn polling_allowed(s: PollerView, now_ms: u64) -> bool {
    s.live || grace_left(s.last_live_ms, now_ms) is Some
}

/// Whether the idle status is shown at a tick that does not poll: no fresh
/// heartbeat, and polling was just shut down or a stale heartbeat is kept.
pub open spec fn shows_idle(s: PollerView, now_ms: u64) -> bool {
    !fresh(s.heartbeat, now_ms) && (!s.idle || s.heartbeat is Some)
}

/// The state after a tick.
pub open spec fn tick_state(old: PollerView, now_ms: u64, live: bool) -> PollerView {
    let s = noted_live(old, now_ms, live);
    if !polling_allowed(s, now_ms) {
        let s2 = if shows_idle(s, now_ms) {
            PollerView { heartbeat: None, ..s }
        } else {
            s
        };
        if !s.idle {
            PollerView {
                known_ids: Seq::empty(),
                initialized: false,
                next_poll_at_ms: None,
                consecutive_errors: 0,
                idle: true,
                ..s2
            }
        } else {
            s2
        }
    } else if fresh(s.heartbeat, now_ms) {
        PollerView { next_poll_at_ms: None, ..s }
    } else {
        s
    }
}

/// Whether a tick polls: polling is allowed, no heartbeat is fresh and the
/// next poll is due.
pub open spec fn tick_polls(old: PollerView, now_ms: u64, live: bool) -> bool {
    let s = noted_live(old, now_ms, live);
    &&& polling_allowed(s, now_ms)
    &&& !fresh(s.heartbeat, now_ms)
    &&& (s.next_poll_at_ms matches Some(d) ==> now_ms >= d)
}

/// The actions of a tick.
pub open spec fn tick_actions_ok(old: PollerView, now_ms: u64, live: bool, r: Seq<AnkiPollerAction>) -> bool {
    let s = noted_live(old, now_ms, live);
    let t = tick_state(old, now_ms, live);
    if !polling_allowed(s, now_ms) {
        let wait = if fresh(t.heartbeat, now_ms) {
            Some(time_until_stale(t.heartbeat->0, now_ms) as u64)
        } else {
            None
        };
        if shows_idle(s, now_ms) {
            &&& r.len() == 2
            &&& status_is(r[0], AnkiConnectionState::Unknown, Some(idle_message()))
            &&& wait_is(r[1], wait)
        } else {
            r.len() == 1 && wait_is(r[0], wait)
        }
    } else if fresh(s.heartbeat, now_ms) {
        r.len() == 1 && wait_is(
            r[0],
            Some(capped_wait(s, now_ms, time_until_stale(s.heartbeat->0, now_ms)) as u64),
        )
    } else if tick_polls(old, now_ms, live) {
        r.len() == 1 && r[0] is FindNotes
    } else {
        r.len() == 1 && wait_is(r[0], Some(capped_wait(s, now_ms, s.next_poll_at_ms->0 - now_ms) as u64))
    }
}

// ---------------------------------------------------------------------------
// Poll answers
// ---------------------------------------------------------------------------

/// The state after AnkiConnect listed the notes `ids`.
pub open spec fn found_state(old: PollerView, now_ms: u64, ids: Seq<i64>, base: u64) -> PollerView {
    PollerView {
        known_ids: ids,
        initialized: true,
        consecutive_errors: 0,
        next_poll_at_ms: Some(sat_add(now_ms, base as int)),
        ..old
    }
}

/// The actions after a listing: Anki is connected; the notes to offer (see
/// [`offered_note`], only once the known notes were recorded) are
/// described; then the poller waits for the polling rate.
pub open spec fn found_actions_ok(
    old: PollerView,
    now_ms: u64,
    ids: Seq<i64>,
    base: u64,
    r: Seq<AnkiPollerAction>,
) -> bool {
    let now_secs = (now_ms / 1000) as i64;
    &&& r.len() >= 2
    &&& status_is(r[0], AnkiConnectionState::Connected, None)
    &&& wait_is(r.last(), Some(capped_wait(old, now_ms, base as int) as u64))
    &&& if old.initialized && exists|x: i64| ids.contains(x) && offered_note(x, old.known_ids, now_secs) {
        &&& r.len() == 3
        &&& match r[1] {
            AnkiPollerAction::FetchNotes { ids: f, push_note: p, card_ids: c } => {
                &&& p is None
                &&& c is None
                &&& forall|i: int, j: int| 0 <= i < j < f@.len() ==> f@[i] != f@[j]
                &&& forall|x: i64| f@.contains(x) <==> (ids.contains(x) && offered_note(x, old.known_ids, now_secs))
            },
            _ => false,
        }
    } else {
        r.len() == 2
    }
}

/// The state after a failed listing.
pub open spec fn failed_state(old: PollerView, now_ms: u64, base: u64) -> PollerView {
    let errors: u32 = if old.consecutive_errors == u32::MAX {
        u32::MAX
    } else {
        (old.consecutive_errors + 1) as u32
    };
    PollerView {
        consecutive_errors: errors,
        next_poll_at_ms: Some(sat_add(now_ms, backoff_ms(base, errors))),
        ..old
    }
}

/// The actions after a failed listing: Disconnected once five listings in
/// a row failed, then a wait of [`backoff_ms`].
pub open spec fn failed_actions_ok(
    old: PollerView,
    now_ms: u64,
    base: u64,
    url: Seq<char>,
    error: Seq<char>,
    r: Seq<AnkiPollerAction>,
) -> bool {
    let s = failed_state(old, now_ms, base);
    let wait = capped_wait(old, now_ms, backoff_ms(base, s.consecutive_errors));
    if s.consecutive_errors >= DISCONNECT_AFTER_ERRORS {
        &&& r.len() == 2
        &&& status_is(r[0], AnkiConnectionState::Disconnected, Some(unreachable_message(url, error)))
        &&& wait_is(r[1], Some(wait as u64))
    } else {
        r.len() == 1 && wait_is(r[0], Some(wait as u64))
    }
}

// ---------------------------------------------------------------------------
// Offers
// ---------------------------------------------------------------------------

/// The card IDs as values.
pub open spec fn ids_view(c: Option<Vec<i64>>) -> Option<Seq<i64>> {
    match c {
        Some(v) => Some(v@),
        None => None,
    }
}

/// Whether `n` offers `note` with the card IDs `card_ids`.
pub open spec fn offers(n: NewCardNotification, note: NoteInfo, cfg: AnkiConfig, card_ids: Option<Seq<i64>>) -> bool {
    &&& n.event.note_id == note.note_id
    &&& n.event.sentence@ == (match field_value(note.fields@, cfg.fields.sentence@) {
        Some(v) => v,
        None => Seq::empty(),
    })
    &&& n.event.fields == note.fields
    &&& n.event.model_name == note.model_name
    &&& n.event.tags == note.tags
    &&& ids_view(n.card_ids) == card_ids
}

/// The notes that are offered, in order: those not passed over.
pub open spec fn kept_notes(notes: Seq<NoteInfo>, cfg: AnkiConfig) -> Seq<NoteInfo>
    decreases notes.len(),
{
    if notes.len() == 0 {
        Seq::empty()
    } else {
        let rest = kept_notes(notes.drop_last(), cfg);
        if skips_note(notes.last(), cfg) {
            rest
        } else {
            rest.push(notes.last())
        }
    }
}

/// Whether the actions are exactly the offers of the kept notes.
pub open spec fn offers_ok(
    r: Seq<AnkiPollerAction>,
    notes: Seq<NoteInfo>,
    cfg: AnkiConfig,
    card_ids: Option<Seq<i64>>,
) -> bool {
    &&& r.len() == kept_notes(notes, cfg).len()
    &&& forall|i: int|
        0 <= i < r.len() ==> match #[trigger] r[i] {
            AnkiPollerAction::Offer(n) => offers(n, kept_notes(notes, cfg)[i], cfg, card_ids),
            _ => false,
        }
}

/// The processed pushed notes after `id` is handled.
pub open spec fn with_processed(processed: Seq<i64>, id: i64) -> Seq<i64> {
    if processed.contains(id) {
        processed
    } else {
        processed.push(id)
    }
}

// ---------------------------------------------------------------------------
// The step
// ---------------------------------------------------------------------------

/// The next state and actions for an event (`base` is the polling rate,
/// `url` the AnkiConnect address).
pub open spec fn poller_next(
    old: PollerView,
    cfg: AnkiConfig,
    event: AnkiPollerEvent,
    new: PollerView,
    r: Seq<AnkiPollerAction>,
) -> bool {
    let base = cfg.polling_rate_ms;
    match event {
        AnkiPollerEvent::Tick { now_ms, live } => new == tick_state(old, now_ms, live) && tick_actions_ok(
            old,
            now_ms,
            live,
            r,
        ),
        AnkiPollerEvent::NotesFound { now_ms, ids } => new == found_state(old, now_ms, ids@, base)
            && found_actions_ok(old, now_ms, ids@, base, r),
        AnkiPollerEvent::FindFailed { now_ms, error } => new == failed_state(old, now_ms, base)
            && failed_actions_ok(old, now_ms, base, cfg.url@, error@, r),
        AnkiPollerEvent::Heartbeat { now_ms, session_id, interval_ms } => {
            &&& new == PollerView {
                heartbeat: Some(HeartbeatState { received_at_ms: now_ms, session_id, interval_ms }),
                consecutive_errors: 0,
                ..old
            }
            &&& r.len() == 1
            &&& status_is(r[0], AnkiConnectionState::Connected, None)
        },
        AnkiPollerEvent::NoteAdded { note_id, note, card_ids } => match note_id {
            None => new == old && r.len() == 0,
            Some(id) => if old.processed.contains(id) {
                new == old && r.len() == 0
            } else {
                &&& r.len() >= 1
                &&& status_is(r[0], AnkiConnectionState::Connected, None)
                &&& match note {
                    Some(n) => {
                        &&& new == PollerView { processed: old.processed.push(id), ..old }
                        &&& offers_ok(r.skip(1), seq![n], cfg, ids_view(card_ids))
                    },
                    None => {
                        &&& new == old
                        &&& r.len() == 2
                        &&& match r[1] {
                            AnkiPollerAction::FetchNotes { ids: f, push_note: p, card_ids: c } => f@ == seq![id]
                                && p == Some(id) && ids_view(c) == ids_view(card_ids),
                            _ => false,
                        }
                    },
                }
            },
        },
        AnkiPollerEvent::NotesFetched { notes, card_ids, push_note } => {
            &&& new == (match push_note {
                Some(id) => PollerView { processed: with_processed(old.processed, id), ..old },
                None => old,
            })
            &&& offers_ok(r, notes@, cfg, ids_view(card_ids))
        },
        AnkiPollerEvent::FetchFailed { push_note, error } => {
            &&& new == old
            &&& match push_note {
                Some(_) => r.len() == 1 && status_is(
                    r[0],
                    AnkiConnectionState::Disconnected,
                    Some(unreachable_message(cfg.url@, error@)),
                ),
                None => r.len() == 0,
            }
        },
    }
}


// ---------------------------------------------------------------------------
// Executable step
// ---------------------------------------------------------------------------

fn grace_left_exec(last_live_ms: Option<u64>, now_ms: u64) -> (r: Option<u64>)
    ensures
        match r {
            Some(g) => grace_left(last_live_ms, now_ms) == Some(g as int),
            None => grace_left(last_live_ms, now_ms) is None,
        },
{
    match last_live_ms {
        Some(t) => {
            let e = if now_ms >= t {
                now_ms - t
            } else {
                0
            };
            if e < SESSION_POLL_GRACE_MS {
                Some(SESSION_POLL_GRACE_MS - e)
            } else {
                None
            }
        },
        None => None,
    }
}

fn capped_wait_exec(state: &AnkiPollerState, now_ms: u64, w: u64) -> (r: u64)
    ensures
        r == capped_wait(state@, now_ms, w as int),
{
    if state.live {
        w
    } else {
        match grace_left_exec(state.last_live_ms, now_ms) {
            Some(g) => if w < g {
                w
            } else {
                g
            },
            None => 0,
        }
    }
}

fn sat_add_exec(a: u64, b: u64) -> (r: u64)
    ensures
        r == sat_add(a, b as int),
{
    if a > u64::MAX - b {
        u64::MAX
    } else {
        a + b
    }
}

fn backoff_exec(base: u64, errors: u32) -> (r: u64)
    requires
        errors >= 1,
    ensures
        r == backoff_ms(base, errors),
{
    let d: u32 = if errors - 1 < 10 {
        errors - 1
    } else {
        10
    };
    let mut b: u64 = base;
    let mut i: u32 = 0;
    while i < d
        invariant
            i <= d,
            b as int == doubled(base as int, i as nat) || (b >= MAX_POLL_BACKOFF_MS && doubled(
                base as int,
                i as nat,
            ) >= MAX_POLL_BACKOFF_MS),
        decreases d - i,
    {
        assert(doubled(base as int, (i + 1) as nat) == 2 * doubled(base as int, i as nat));
        if b < MAX_POLL_BACKOFF_MS {
            b = b * 2;
        }
        i += 1;
    }
    if b < MAX_POLL_BACKOFF_MS {
        b
    } else {
        MAX_POLL_BACKOFF_MS
    }
}

fn copy_ids(c: &Option<Vec<i64>>) -> (r: Option<Vec<i64>>)
    ensures
        ids_view(r) == ids_view(*c),
{
    match c {
        Some(v) => {
            let mut out: Vec<i64> = Vec::new();
            let mut k: usize = 0;
            while k < v.len()
                invariant
                    k <= v@.len(),
                    out@ == v@.take(k as int),
                decreases v.len() - k,
            {
                out.push(v[k]);
                assert(v@.take(k + 1) == v@.take(k as int).push(v@[k as int]));
                k += 1;
            }
            assert(v@.take(v@.len() as int) == v@);
            Some(out)
        },
        None => None,
    }
}

/// The offers for the notes that are not passed over (see [`offers_ok`]).
fn offer_actions(notes: Vec<NoteInfo>, cfg: &AnkiConfig, card_ids: &Option<Vec<i64>>) -> (r: Vec<AnkiPollerAction>)
    ensures
        offers_ok(r@, notes@, *cfg, ids_view(*card_ids)),
{
    let ghost all = notes@;
    let total = notes.len();
    let mut rest = notes;
    let mut r: Vec<AnkiPollerAction> = Vec::new();
    let mut k: usize = 0;
    assert(all.take(0) =~= Seq::<NoteInfo>::empty());
    while rest.len() > 0
        invariant
            k + rest@.len() == all.len(),
            all.len() == total,
            rest@ == all.skip(k as int),
            offers_ok(r@, all.take(k as int), *cfg, ids_view(*card_ids)),
        decreases rest.len(),
    {
        let ghost before = rest@;
        let note = rest.remove(0);
        assert(rest@ == all.skip(k + 1));
        assert(note == all[k as int]);
        let ghost prefix = all.take(k as int);
        let ghost next = all.take(k + 1);
        assert(next.drop_last() == prefix);
        assert(next.last() == note);
        let skip = should_skip_note(&note, cfg);
        if !skip {
            let ghost n0 = note;
            let event = note_info_to_event(note, cfg.fields.sentence.as_str());
            let ghost before_r = r@;
            r.push(AnkiPollerAction::Offer(NewCardNotification { event, card_ids: copy_ids(card_ids) }));
            assert(kept_notes(next, *cfg) == kept_notes(prefix, *cfg).push(n0));
            assert forall|i: int| 0 <= i < r@.len() implies match #[trigger] r@[i] {
                AnkiPollerAction::Offer(n) => offers(n, kept_notes(next, *cfg)[i], *cfg, ids_view(*card_ids)),
                _ => false,
            } by {
                if i < before_r.len() {
                    assert(r@[i] == before_r[i]);
                }
            }
        } else {
            assert(kept_notes(next, *cfg) == kept_notes(prefix, *cfg));
        }
        k += 1;
    }
    assert(all.take(k as int) == all);
    r
}

/// One step of the poller (see [`poller_next`]); `cfg` holds the polling
/// rate, the AnkiConnect address and the note filters.
pub fn anki_poller_step(state: &mut AnkiPollerState, cfg: &AnkiConfig, event: AnkiPollerEvent) -> (r: Vec<AnkiPollerAction>)
    ensures
        poller_next(old(state)@, *cfg, event, final(state)@, r@),
{
    let base = cfg.polling_rate_ms;
    match event {
        AnkiPollerEvent::Tick { now_ms, live } => tick(state, now_ms, live),
        AnkiPollerEvent::NotesFound { now_ms, ids } => {
            let ghost old_view = state@;
            let mut r: Vec<AnkiPollerAction> = Vec::new();
            r.push(AnkiPollerAction::SetStatus(AnkiConnectionState::Connected, None));
            if state.initialized {
                let now_secs: i64 = (now_ms / 1000) as i64;
                assert forall|i: int|
                    0 <= i < ids@.len() && !state.known_ids@.contains(#[trigger] ids@[i]) implies i64::MIN
                    < now_secs - div_toward_zero(ids@[i] as int, 1000) <= i64::MAX by {
                    let x = ids@[i] as int;
                    if x >= 0 {
                        assert(x / 1000 <= i64::MAX / 1000);
                    } else {
                        assert((-x) / 1000 <= 9223372036854775808int / 1000);
                    }
                }
                let fresh_ids = new_note_ids(&ids, &state.known_ids, now_secs);
                if fresh_ids.len() > 0 {
                    assert(fresh_ids@.contains(fresh_ids@[0]));
                    r.push(AnkiPollerAction::FetchNotes { ids: fresh_ids, push_note: None, card_ids: None });
                } else {
                    assert(!exists|x: i64| ids@.contains(x) && offered_note(x, old_view.known_ids, now_secs)) by {
                        if exists|x: i64| ids@.contains(x) && offered_note(x, old_view.known_ids, now_secs) {
                            let x = choose|x: i64| ids@.contains(x) && offered_note(x, old_view.known_ids, now_secs);
                            assert(fresh_ids@.contains(x));
                        }
                    }
                }
            }
            let w = capped_wait_exec(state, now_ms, base);
            r.push(AnkiPollerAction::Wait(Some(w)));
            state.known_ids = ids;
            state.initialized = true;
            state.consecutive_errors = 0;
            state.next_poll_at_ms = Some(sat_add_exec(now_ms, base));
            r
        },
        AnkiPollerEvent::FindFailed { now_ms, error } => {
            let errors = if state.consecutive_errors == u32::MAX {
                u32::MAX
            } else {
                state.consecutive_errors + 1
            };
            let backoff = backoff_exec(base, errors);
            let w = capped_wait_exec(state, now_ms, backoff);
            let mut r: Vec<AnkiPollerAction> = Vec::new();
            if errors >= DISCONNECT_AFTER_ERRORS {
                r.push(AnkiPollerAction::SetStatus(AnkiConnectionState::Disconnected, Some(unreachable(cfg, &error))));
            }
            r.push(AnkiPollerAction::Wait(Some(w)));
            state.consecutive_errors = errors;
            state.next_poll_at_ms = Some(sat_add_exec(now_ms, backoff));
            r
        },
        AnkiPollerEvent::Heartbeat { now_ms, session_id, interval_ms } => {
            state.heartbeat = Some(HeartbeatState { received_at_ms: now_ms, session_id, interval_ms });
            state.consecutive_errors = 0;
            let mut r: Vec<AnkiPollerAction> = Vec::new();
            r.push(AnkiPollerAction::SetStatus(AnkiConnectionState::Connected, None));
            r
        },
        AnkiPollerEvent::NoteAdded { note_id, note, card_ids } => {
            let id = match note_id {
                Some(id) => id,
                None => {
                    return Vec::new();
                },
            };
            if contains_id(&state.processed, id) {
                return Vec::new();
            }
            let mut r: Vec<AnkiPollerAction> = Vec::new();
            r.push(AnkiPollerAction::SetStatus(AnkiConnectionState::Connected, None));
            match note {
                Some(n) => {
                    let ghost n0 = n;
                    let mut notes: Vec<NoteInfo> = Vec::new();
                    notes.push(n);
                    assert(notes@ == seq![n0]);
                    let mut offers = offer_actions(notes, cfg, &card_ids);
                    let ghost offered = offers@;
                    r.append(&mut offers);
                    assert(r@.skip(1) == offered);
                    state.processed.push(id);
                },
                None => {
                    let mut one: Vec<i64> = Vec::new();
                    one.push(id);
                    assert(one@ == seq![id]);
                    r.push(AnkiPollerAction::FetchNotes { ids: one, push_note: Some(id), card_ids });
                },
            }
            r
        },
        AnkiPollerEvent::NotesFetched { notes, card_ids, push_note } => {
            let r = offer_actions(notes, cfg, &card_ids);
            match push_note {
                Some(id) => {
                    if !contains_id(&state.processed, id) {
                        state.processed.push(id);
                    }
                },
                None => {},
            }
            r
        },
        AnkiPollerEvent::FetchFailed { push_note, error } => {
            let mut r: Vec<AnkiPollerAction> = Vec::new();
            if push_note.is_some() {
                r.push(AnkiPollerAction::SetStatus(AnkiConnectionState::Disconnected, Some(unreachable(cfg, &error))));
            }
            r
        },
    }
}

fn contains_id(v: &Vec<i64>, id: i64) -> (r: bool)
    ensures
        r == v@.contains(id),
{
    let mut k: usize = 0;
    while k < v.len()
        invariant
            k <= v@.len(),
            forall|j: int| 0 <= j < k ==> v@[j] != id,
        decreases v.len() - k,
    {
        if v[k] == id {
            assert(v@[k as int] == id);
            return true;
        }
        k += 1;
    }
    false
}

fn unreachable(cfg: &AnkiConfig, error: &String) -> (r: String)
    ensures
        r@ == unreachable_message(cfg.url@, error@),
{
    let mut t: Vec<char> = Vec::new();
    append_str(&mut t, "Cannot reach AnkiConnect at ");
    append_str(&mut t, cfg.url.as_str());
    append_str(&mut t, ". Card enrichment will stay unavailable until Anki is running. Last error: ");
    append_str(&mut t, error.as_str());
    string_of(&t)
}

fn tick(state: &mut AnkiPollerState, now_ms: u64, live: bool) -> (r: Vec<AnkiPollerAction>)
    ensures
        final(state)@ == tick_state(old(state)@, now_ms, live),
        tick_actions_ok(old(state)@, now_ms, live, r@),
{
    if live {
        state.last_live_ms = Some(now_ms);
        state.idle = false;
    }
    state.live = live;
    let allowed = live || grace_left_exec(state.last_live_ms, now_ms).is_some();
    let push_active = match &state.heartbeat {
        Some(h) => h.is_fresh(now_ms),
        None => false,
    };
    let mut r: Vec<AnkiPollerAction> = Vec::new();
    if !allowed {
        if !push_active && (!state.idle || state.heartbeat.is_some()) {
            let mut msg: Vec<char> = Vec::new();
            append_str(&mut msg, "Waiting for an active playback session before polling AnkiConnect fallback.");
            r.push(AnkiPollerAction::SetStatus(AnkiConnectionState::Unknown, Some(string_of(&msg))));
            state.heartbeat = None;
        }
        if !state.idle {
            state.known_ids = Vec::new();
            state.initialized = false;
            state.next_poll_at_ms = None;
            state.consecutive_errors = 0;
            state.idle = true;
        }
        let wait = match &state.heartbeat {
            Some(h) => if h.is_fresh(now_ms) {
                Some(h.duration_until_stale(now_ms))
            } else {
                None
            },
            None => None,
        };
        r.push(AnkiPollerAction::Wait(wait));
        return r;
    }
    if push_active {
        state.next_poll_at_ms = None;
        let until = match &state.heartbeat {
            Some(h) => h.duration_until_stale(now_ms),
            None => 0,
        };
        let w = capped_wait_exec(state, now_ms, until);
        r.push(AnkiPollerAction::Wait(Some(w)));
        return r;
    }
    match state.next_poll_at_ms {
        Some(deadline) => {
            if now_ms >= deadline {
                r.push(AnkiPollerAction::FindNotes);
            } else {
                let w = capped_wait_exec(state, now_ms, deadline - now_ms);
                r.push(AnkiPollerAction::Wait(Some(w)));
            }
        },
        None => {
            r.push(AnkiPollerAction::FindNotes);
        },
    }
    r
}


// ---------------------------------------------------------------------------
// Laws
// ---------------------------------------------------------------------------

/// While the add-on's heartbeat is fresh, a tick never lists notes:
/// polling is off in push mode.
pub proof fn lemma_no_polling_while_heartbeat_fresh(
    old: PollerView,
    cfg: AnkiConfig,
    now_ms: u64,
    live: bool,
    new: PollerView,
    r: Seq<AnkiPollerAction>,
)
    requires
        poller_next(old, cfg, AnkiPollerEvent::Tick { now_ms, live }, new, r),
        fresh(old.heartbeat, now_ms),
    ensures
        forall|i: int| 0 <= i < r.len() ==> !(#[trigger] r[i] is FindNotes),
{
}

/// A pushed note is handled once: when the same note is reported again,
/// nothing is done and nothing changes.
pub proof fn lemma_pushed_note_handled_once(
    s0: PollerView,
    cfg: AnkiConfig,
    id: i64,
    note: NoteInfo,
    card_ids: Option<Vec<i64>>,
    s1: PollerView,
    r1: Seq<AnkiPollerAction>,
    again: Option<NoteInfo>,
    again_card_ids: Option<Vec<i64>>,
    s2: PollerView,
    r2: Seq<AnkiPollerAction>,
)
    requires
        poller_next(s0, cfg, AnkiPollerEvent::NoteAdded { note_id: Some(id), note: Some(note), card_ids }, s1, r1),
        poller_next(
            s1,
            cfg,
            AnkiPollerEvent::NoteAdded { note_id: Some(id), note: again, card_ids: again_card_ids },
            s2,
            r2,
        ),
    ensures
        r2.len() == 0,
        s2 == s1,
{
    if !s0.processed.contains(id) {
        assert(s1.processed == s0.processed.push(id));
        assert(s1.processed[s0.processed.len() as int] == id);
    }
}

/// The fifth failed listing in a row (and every later one) reports Anki as
/// disconnected, and the next poll waits at most five seconds.
pub proof fn lemma_disconnected_after_five_failures(
    old: PollerView,
    cfg: AnkiConfig,
    now_ms: u64,
    error: String,
    new: PollerView,
    r: Seq<AnkiPollerAction>,
)
    requires
        poller_next(old, cfg, AnkiPollerEvent::FindFailed { now_ms, error }, new, r),
        old.consecutive_errors + 1 >= DISCONNECT_AFTER_ERRORS,
    ensures
        status_is(
            r[0],
            AnkiConnectionState::Disconnected,
            Some(unreachable_message(cfg.url@, error@)),
        ),
        match r.last() {
            AnkiPollerAction::Wait(Some(w)) => w <= MAX_POLL_BACKOFF_MS,
            _ => false,
        },
{
    let errors = new.consecutive_errors;
    let d: nat = if errors - 1 < 10 {
        (errors - 1) as nat
    } else {
        10
    };
    lemma_doubled_nonneg(cfg.polling_rate_ms as int, d);
    assert(r.last() == r[1]);
}

proof fn lemma_doubled_nonneg(x: int, k: nat)
    requires
        x >= 0,
    ensures
        doubled(x, k) >= 0,
    decreases k,
{
    if k > 0 {
        lemma_doubled_nonneg(x, (k - 1) as nat);
    }
}

} // verus!

//! Anki notes: which new notes are offered for enrichment, and the state of
//! the connection to Anki.
use vstd::prelude::*;
use crate::config::AnkiConfig;
use crate::session::SessionState;
use crate::json::{
    array_value, as_i64, as_str, at, at_key, elements, i64_value, member, member_of, str_value, text_or,
    JsonValue,
};
use crate::media_server::div_toward_zero;
use crate::text::{chars_of, owned, str_equal, trim, trim_chars};

verus! {

/// Whether Anki was reached.
#[derive(Clone, Copy, Debug, PartialEq, Eq, Structural)]
pub enum AnkiConnectionState {
    Unknown,
    Connected,
    Disconnected,
}

/// The Anki connection state shown to the user.
pub struct AnkiStatus {
    pub state: AnkiConnectionState,
    pub message: Option<String>,
}

impl Default for AnkiStatus {
    fn default() -> (r: Self)
        ensures
            r.state == AnkiConnectionState::Unknown,
            r.message is None,
    {
        AnkiStatus { state: AnkiConnectionState::Unknown, message: None }
    }
}

/// One field of a note.
pub struct NoteField {
    pub value: String,
    pub order: i32,
}

/// A note as AnkiConnect describes it. Its field names are unique (see
/// [`NoteInfo::well_formed`]): a JSON object never repeats a key, and
/// [`lemma_note_field_names_unique`] shows that reading keeps them unique.
pub struct NoteInfo {
    pub note_id: i64,
    pub model_name: String,
    pub tags: Vec<String>,
    pub fields: Vec<(String, NoteField)>,
}

/// A new note offered for enrichment.
pub struct NewCardEvent {
    pub note_id: i64,
    pub sentence: String,
    pub fields: Vec<(String, NoteField)>,
    pub model_name: String,
    pub tags: Vec<String>,
}

/// A new note with the IDs of its cards, when known.
pub struct NewCardNotification {
    pub event: NewCardEvent,
    pub card_ids: Option<Vec<i64>>,
}

/// The kinds of event the Anki add-on sends.
#[derive(Clone, Copy, Debug, PartialEq, Eq, Structural)]
pub enum AnkiBeaconEventKind {
    Heartbeat,
    NoteAdded,
}

/// A media file stored into Anki with a note.
pub struct AnkiMedia {
    pub filename: String,
    /// The file's bytes in base64.
    pub data: String,
    pub fields: Vec<String>,
}

/// Whether the field names are unique, as in a note.
pub open spec fn unique_field_names(fields: Seq<(String, NoteField)>) -> bool {
    forall|i: int, j: int|
        0 <= i < j < fields.len() ==> #[trigger] fields[i].0@ != #[trigger] fields[j].0@
}

/// The value of the first field named `name`, from `k` on.
pub open spec fn field_value_from(fields: Seq<(String, NoteField)>, name: Seq<char>, k: int) -> Option<Seq<char>>
    decreases fields.len() - k,
{
    if k < 0 || k >= fields.len() {
        None
    } else if fields[k].0@ == name {
        Some(fields[k].1.value@)
    } else {
        field_value_from(fields, name, k + 1)
    }
}

/// The value of the field named `name`.
pub open spec fn field_value(fields: Seq<(String, NoteField)>, name: Seq<char>) -> Option<Seq<char>> {
    field_value_from(fields, name, 0)
}

fn field_value_exec(fields: &Vec<(String, NoteField)>, name: &str) -> (r: Option<String>)
    ensures
        match r {
            Some(v) => field_value(fields@, name@) == Some(v@),
            None => field_value(fields@, name@) is None,
        },
{
    let mut k: usize = 0;
    while k < fields.len()
        invariant
            k <= fields@.len(),
            field_value(fields@, name@) == field_value_from(fields@, name@, k as int),
        decreases fields.len() - k,
    {
        if str_equal(fields[k].0.as_str(), name) {
            return Some(fields[k].1.value.clone());
        }
        k += 1;
    }
    None
}

/// The event for a new note: its sentence is the value of the sentence
/// field, or empty when the note has no such field.
pub fn note_info_to_event(note: NoteInfo, sentence_field: &str) -> (r: NewCardEvent)
    ensures
        r.note_id == note.note_id,
        r.sentence@ == (match field_value(note.fields@, sentence_field@) {
            Some(v) => v,
            None => Seq::empty(),
        }),
        r.fields == note.fields,
        r.model_name == note.model_name,
        r.tags == note.tags,
{
    let sentence = match field_value_exec(&note.fields, sentence_field) {
        Some(v) => v,
        None => String::new(),
    };
    NewCardEvent {
        note_id: note.note_id,
        sentence,
        fields: note.fields,
        model_name: note.model_name,
        tags: note.tags,
    }
}

/// Whether a list of strings holds the text.
pub open spec fn lists(list: Seq<String>, x: Seq<char>) -> bool {
    exists|k: int| 0 <= k < list.len() && #[trigger] list[k]@ == x
}

/// Whether some tag of the note is in the list.
pub open spec fn has_tag_in(tags: Seq<String>, list: Seq<String>) -> bool {
    exists|k: int| 0 <= k < tags.len() && lists(list, #[trigger] tags[k]@)
}

/// Whether the named field has a value that is not blank.
pub open spec fn field_filled(fields: Seq<(String, NoteField)>, name: Seq<char>) -> bool {
    field_value(fields, name) matches Some(v) && trim(v).len() > 0
}

/// Whether a new note is passed over: its note type is not among the listed
/// ones, it has an ignored tag, it lacks every required tag, or every media
/// field guarded by a skip flag already has a value.
pub open spec fn skips_note(note: NoteInfo, cfg: AnkiConfig) -> bool {
    let needs_audio = cfg.skip_if_audio_exists && !field_filled(
        note.fields@,
        cfg.fields.sentence_audio@,
    );
    let needs_picture = cfg.skip_if_picture_exists && !field_filled(note.fields@, cfg.fields.picture@);
    ||| (cfg.note_types@.len() > 0 && !lists(cfg.note_types@, note.model_name@))
    ||| (cfg.ignore_tags@.len() > 0 && has_tag_in(note.tags@, cfg.ignore_tags@))
    ||| (cfg.require_tags@.len() > 0 && !has_tag_in(note.tags@, cfg.require_tags@))
    ||| ((cfg.skip_if_audio_exists || cfg.skip_if_picture_exists) && !needs_audio && !needs_picture)
}

fn lists_exec(list: &Vec<String>, x: &str) -> (r: bool)
    ensures
        r == lists(list@, x@),
{
    let mut k: usize = 0;
    while k < list.len()
        invariant
            k <= list@.len(),
            forall|j: int| 0 <= j < k ==> #[trigger] list@[j]@ != x@,
        decreases list.len() - k,
    {
        if str_equal(list[k].as_str(), x) {
            assert(list@[k as int]@ == x@);
            return true;
        }
        k += 1;
    }
    false
}

fn has_tag_in_exec(tags: &Vec<String>, list: &Vec<String>) -> (r: bool)
    ensures
        r == has_tag_in(tags@, list@),
{
    let mut k: usize = 0;
    while k < tags.len()
        invariant
            k <= tags@.len(),
            forall|j: int| 0 <= j < k ==> !lists(list@, #[trigger] tags@[j]@),
        decreases tags.len() - k,
    {
        if lists_exec(list, tags[k].as_str()) {
            assert(lists(list@, tags@[k as int]@));
            return true;
        }
        k += 1;
    }
    false
}

fn field_filled_exec(fields: &Vec<(String, NoteField)>, name: &str) -> (r: bool)
    ensures
        r == field_filled(fields@, name@),
{
    match field_value_exec(fields, name) {
        Some(v) => {
            let c = chars_of(v.as_str());
            trim_chars(&c).len() > 0
        },
        None => false,
    }
}

/// Whether a new note is passed over (see [`skips_note`]).
pub fn should_skip_note(note: &NoteInfo, cfg: &AnkiConfig) -> (r: bool)
    ensures
        r == skips_note(*note, *cfg),
{
    if cfg.note_types.len() > 0 && !lists_exec(&cfg.note_types, note.model_name.as_str()) {
        return true;
    }
    if cfg.ignore_tags.len() > 0 && has_tag_in_exec(&note.tags, &cfg.ignore_tags) {
        return true;
    }
    if cfg.require_tags.len() > 0 && !has_tag_in_exec(&note.tags, &cfg.require_tags) {
        return true;
    }
    if cfg.skip_if_audio_exists || cfg.skip_if_picture_exists {
        let audio_set = cfg.skip_if_audio_exists && field_filled_exec(
            &note.fields,
            cfg.fields.sentence_audio.as_str(),
        );
        let picture_set = cfg.skip_if_picture_exists && field_filled_exec(
            &note.fields,
            cfg.fields.picture.as_str(),
        );
        let needs_audio = cfg.skip_if_audio_exists && !audio_set;
        let needs_picture = cfg.skip_if_picture_exists && !picture_set;
        if !needs_audio && !needs_picture {
            return true;
        }
    }
    false
}

// ---------------------------------------------------------------------------
// Liveness
// ---------------------------------------------------------------------------

/// How long AnkiConnect keeps being polled after the last live session.
pub const SESSION_POLL_GRACE_MS: u64 = 600_000;

/// The least time after which an add-on heartbeat is stale.
pub const MIN_HEARTBEAT_STALE_AFTER_MS: u64 = 30_000;

/// Whether a session is listed or an item is playing.
pub fn has_live_session(state: &SessionState) -> (r: bool)
    ensures
        r == (state.sessions@.len() > 0 || state.now_playing is Some),
{
    state.sessions.len() > 0 || state.now_playing.is_some()
}

/// The polling grace left after the last live session, given the time
/// elapsed since it; none when there was none or the grace has run out.
pub fn grace_remaining_since(elapsed_since_live_ms: Option<u64>) -> (r: Option<u64>)
    ensures
        match elapsed_since_live_ms {
            Some(e) => if e < SESSION_POLL_GRACE_MS {
                r == Some((SESSION_POLL_GRACE_MS - e) as u64)
            } else {
                r is None
            },
            None => r is None,
        },
{
    match elapsed_since_live_ms {
        Some(e) => if e < SESSION_POLL_GRACE_MS {
            Some(SESSION_POLL_GRACE_MS - e)
        } else {
            None
        },
        None => None,
    }
}

/// The last heartbeat of the Anki add-on; times in milliseconds of a
/// monotonic clock.
pub struct HeartbeatState {
    pub received_at_ms: u64,
    pub session_id: Option<String>,
    pub interval_ms: u64,
}

/// Three heartbeat intervals (saturating), but at least thirty seconds.
pub open spec fn stale_after_ms(interval_ms: u64) -> int {
    let three = if 3 * interval_ms > u64::MAX {
        u64::MAX as int
    } else {
        3 * interval_ms
    };
    if three > MIN_HEARTBEAT_STALE_AFTER_MS {
        three
    } else {
        MIN_HEARTBEAT_STALE_AFTER_MS as int
    }
}

/// Time since `at`, zero when `now` is earlier.
pub open spec fn elapsed_ms(at: u64, now: u64) -> int {
    if now >= at {
        now - at
    } else {
        0
    }
}

/// Time left until a heartbeat is stale at `now`, zero once it is.
pub open spec fn time_until_stale(h: HeartbeatState, now: u64) -> int {
    if elapsed_ms(h.received_at_ms, now) < stale_after_ms(h.interval_ms) {
        stale_after_ms(h.interval_ms) - elapsed_ms(h.received_at_ms, now)
    } else {
        0
    }
}

/// A heartbeat is fresh exactly while time is left before it goes stale.
pub proof fn lemma_fresh_while_time_left(h: HeartbeatState, now: u64)
    ensures
        (elapsed_ms(h.received_at_ms, now) < stale_after_ms(h.interval_ms)) == (time_until_stale(h, now)
            > 0),
{
}

impl HeartbeatState {
    /// After how long the heartbeat is stale.
    pub fn stale_after(&self) -> (r: u64)
        ensures
            r == stale_after_ms(self.interval_ms),
    {
        let three = if self.interval_ms > u64::MAX / 3 {
            u64::MAX
        } else {
            self.interval_ms * 3
        };
        if three > MIN_HEARTBEAT_STALE_AFTER_MS {
            three
        } else {
            MIN_HEARTBEAT_STALE_AFTER_MS
        }
    }

    /// Whether the heartbeat is younger than its stale time at `now_ms`.
    pub fn is_fresh(&self, now_ms: u64) -> (r: bool)
        ensures
            r == (elapsed_ms(self.received_at_ms, now_ms) < stale_after_ms(self.interval_ms)),
    {
        let elapsed = if now_ms >= self.received_at_ms {
            now_ms - self.received_at_ms
        } else {
            0
        };
        elapsed < self.stale_after()
    }

    /// Time left until the heartbeat is stale at `now_ms` (zero once stale).
    pub fn duration_until_stale(&self, now_ms: u64) -> (r: u64)
        ensures
            r == time_until_stale(*self, now_ms),
    {
        let elapsed = if now_ms >= self.received_at_ms {
            now_ms - self.received_at_ms
        } else {
            0
        };
        let stale = self.stale_after();
        if elapsed < stale {
            stale - elapsed
        } else {
            0
        }
    }
}

/// Whether there is a heartbeat and it is fresh at `now_ms`.
pub fn heartbeat_is_fresh(heartbeat: Option<&HeartbeatState>, now_ms: u64) -> (r: bool)
    ensures
        r == (heartbeat matches Some(h) && elapsed_ms(h.received_at_ms, now_ms) < stale_after_ms(
            h.interval_ms,
        )),
{
    match heartbeat {
        Some(h) => h.is_fresh(now_ms),
        None => false,
    }
}

// ---------------------------------------------------------------------------
// AnkiBeacon payloads
// ---------------------------------------------------------------------------

/// The note field an AnkiBeacon payload gives as a JSON value: a string is
/// the value (order 0); an object gives its `value` (a string, else empty)
/// and its `order` (an integer, truncated to `i32`, else 0); anything else
/// is an empty field.
pub open spec fn note_field_is(f: NoteField, v: JsonValue) -> bool {
    match v {
        JsonValue::String(s) => f.value@ == s@ && f.order == 0,
        JsonValue::Object(_) => {
            &&& f.value@ == text_or(as_str(member(v, "value"@)), ""@)
            &&& f.order == (match as_i64(member(v, "order"@)) {
                Some(n) => n as i32,
                None => 0,
            })
        },
        _ => f.value@ == ""@ && f.order == 0,
    }
}

/// Reads a note field of an AnkiBeacon payload (see [`note_field_is`]).
pub fn note_field_from_value(v: &JsonValue) -> (r: NoteField)
    ensures
        note_field_is(r, *v),
{
    proof {
        reveal_strlit("");
    }
    match v {
        JsonValue::String(s) => NoteField { value: owned(s.as_str()), order: 0 },
        JsonValue::Object(_) => {
            let value = match str_value(member_of(v, "value")) {
                Some(t) => t,
                None => owned(""),
            };
            let order: i32 = match i64_value(member_of(v, "order")) {
                Some(n) => n as i32,
                None => 0,
            };
            NoteField { value, order }
        },
        _ => NoteField { value: owned(""), order: 0 },
    }
}

/// The member that names a card's ID: `card_id`, else `cardId`, else `id`
/// (the first that is present, whatever its value).
pub open spec fn card_id_member(v: JsonValue) -> Option<JsonValue> {
    if member(v, "card_id"@) is Some {
        member(v, "card_id"@)
    } else if member(v, "cardId"@) is Some {
        member(v, "cardId"@)
    } else {
        member(v, "id"@)
    }
}

/// The card ID in a payload's card entry: the entry itself when it is an
/// integer, else the integer its ID member holds.
pub open spec fn card_id_of(v: JsonValue) -> Option<i64> {
    match as_i64(Some(v)) {
        Some(n) => Some(n),
        None => as_i64(card_id_member(v)),
    }
}

/// Reads the card ID of a card entry (see [`card_id_of`]).
pub fn card_id_from_value(v: &JsonValue) -> (r: Option<i64>)
    ensures
        r == card_id_of(*v),
{
    match i64_value(Some(v)) {
        Some(n) => Some(n),
        None => {
            let key = match member_of(v, "card_id") {
                Some(x) => Some(x),
                None => match member_of(v, "cardId") {
                    Some(x) => Some(x),
                    None => member_of(v, "id"),
                },
            };
            i64_value(key)
        },
    }
}

/// The card IDs of the entries that name one, in order.
pub open spec fn card_ids_of(cards: Seq<JsonValue>) -> Seq<i64>
    decreases cards.len(),
{
    if cards.len() == 0 {
        Seq::empty()
    } else {
        match card_id_of(cards.last()) {
            Some(n) => card_ids_of(cards.drop_last()).push(n),
            None => card_ids_of(cards.drop_last()),
        }
    }
}

/// The card IDs a payload provides: its `card_ids` when not empty, else the
/// IDs named by its `cards` entries when there are any.
pub open spec fn provided_ids(card_ids: Option<Seq<i64>>, cards: Option<Seq<JsonValue>>) -> Option<Seq<i64>> {
    if card_ids matches Some(ids) && ids.len() > 0 {
        card_ids
    } else {
        match cards {
            Some(cs) => if card_ids_of(cs).len() > 0 {
                Some(card_ids_of(cs))
            } else {
                None
            },
            None => None,
        }
    }
}

/// The card IDs an AnkiBeacon payload provides (see [`provided_ids`]).
pub fn provided_card_ids(card_ids: Option<&[i64]>, cards: Option<&[JsonValue]>) -> (r: Option<Vec<i64>>)
    ensures
        match r {
            Some(v) => provided_ids(
                match card_ids {
                    Some(c) => Some(c@),
                    None => None,
                },
                match cards {
                    Some(c) => Some(c@),
                    None => None,
                },
            ) == Some(v@),
            None => provided_ids(
                match card_ids {
                    Some(c) => Some(c@),
                    None => None,
                },
                match cards {
                    Some(c) => Some(c@),
                    None => None,
                },
            ) is None,
        },
{
    match card_ids {
        Some(ids) => {
            if ids.len() > 0 {
                let mut out: Vec<i64> = Vec::new();
                let mut k: usize = 0;
                while k < ids.len()
                    invariant
                        k <= ids@.len(),
                        out@ == ids@.take(k as int),
                    decreases ids.len() - k,
                {
                    out.push(ids[k]);
                    assert(out@ =~= ids@.take(k + 1));
                    k += 1;
                }
                assert(ids@.take(ids@.len() as int) =~= ids@);
                return Some(out);
            }
        },
        None => {},
    }
    let cs = match cards {
        Some(cs) => cs,
        None => {
            return None;
        },
    };
    let mut out: Vec<i64> = Vec::new();
    let mut k: usize = 0;
    while k < cs.len()
        invariant
            k <= cs@.len(),
            out@ == card_ids_of(cs@.take(k as int)),
        decreases cs.len() - k,
    {
        assert(cs@.take(k + 1).drop_last() =~= cs@.take(k as int));
        match card_id_from_value(&cs[k]) {
            Some(n) => {
                out.push(n);
            },
            None => {},
        }
        k += 1;
    }
    assert(cs@.take(cs@.len() as int) =~= cs@);
    if out.len() == 0 {
        None
    } else {
        Some(out)
    }
}

// ---------------------------------------------------------------------------
// AnkiConnect results
// ---------------------------------------------------------------------------

/// The integers of an array result, in order; nothing when it is not an
/// array.
pub open spec fn result_ids(items: Seq<JsonValue>) -> Seq<i64>
    decreases items.len(),
{
    if items.len() == 0 {
        Seq::empty()
    } else {
        match as_i64(Some(items.last())) {
            Some(n) => result_ids(items.drop_last()).push(n),
            None => result_ids(items.drop_last()),
        }
    }
}

/// The note or card IDs of a `findNotes` or `findCards` result.
pub fn ids_from_result(result: &JsonValue) -> (r: Vec<i64>)
    ensures
        r@ == result_ids(elements(Some(*result))),
{
    let mut out: Vec<i64> = Vec::new();
    let items = match array_value(Some(result)) {
        Some(a) => a,
        None => {
            return out;
        },
    };
    let mut k: usize = 0;
    while k < items.len()
        invariant
            k <= items@.len(),
            items@ == elements(Some(*result)),
            out@ == result_ids(items@.take(k as int)),
        decreases items.len() - k,
    {
        assert(items@.take(k + 1).drop_last() =~= items@.take(k as int));
        match i64_value(Some(&items[k])) {
            Some(n) => {
                out.push(n);
            },
            None => {},
        }
        k += 1;
    }
    assert(items@.take(items@.len() as int) =~= items@);
    out
}

/// The strings of an array, in order.
pub open spec fn string_items(items: Seq<JsonValue>) -> Seq<Seq<char>>
    decreases items.len(),
{
    if items.len() == 0 {
        Seq::empty()
    } else {
        match as_str(Some(items.last())) {
            Some(t) => string_items(items.drop_last()).push(t),
            None => string_items(items.drop_last()),
        }
    }
}

/// A field of a `notesInfo` note: its `value` (a string, else empty) and
/// its `order` (an integer, truncated to `i32`, else 0).
pub open spec fn info_field_is(f: NoteField, v: JsonValue) -> bool {
    &&& f.value@ == text_or(as_str(at(Some(v), "value"@)), ""@)
    &&& f.order == (match as_i64(at(Some(v), "order"@)) {
        Some(n) => n as i32,
        None => 0,
    })
}

/// What a note of a `notesInfo` result describes, when it has a `noteId`
/// and a `modelName`: those, its string tags, and its fields in order.
pub open spec fn note_is(n: NoteInfo, v: JsonValue) -> bool {
    let o = Some(v);
    let fields: Seq<(String, JsonValue)> = match member(v, "fields"@) {
        Some(JsonValue::Object(fs)) => fs@,
        _ => Seq::empty(),
    };
    &&& as_i64(at(o, "noteId"@)) == Some(n.note_id)
    &&& as_str(at(o, "modelName"@)) == Some(n.model_name@)
    &&& n.tags@.map_values(|t: String| t@) == string_items(elements(at(o, "tags"@)))
    &&& n.fields@.len() == fields.len()
    &&& forall|i: int|
        0 <= i < fields.len() ==> (#[trigger] n.fields@[i]).0@ == fields[i].0@ && info_field_is(
            n.fields@[i].1,
            fields[i].1,
        )
}

/// Whether an element of a `notesInfo` result describes a note.
pub open spec fn is_note(v: JsonValue) -> bool {
    as_i64(at(Some(v), "noteId"@)) is Some && as_str(at(Some(v), "modelName"@)) is Some
}

/// The elements of a `notesInfo` result that describe notes, in order.
pub open spec fn note_elements(items: Seq<JsonValue>) -> Seq<JsonValue>
    decreases items.len(),
{
    if items.len() == 0 {
        Seq::empty()
    } else if is_note(items.last()) {
        note_elements(items.drop_last()).push(items.last())
    } else {
        note_elements(items.drop_last())
    }
}

fn note_from_value(v: &JsonValue) -> (r: Option<NoteInfo>)
    ensures
        match r {
            Some(n) => is_note(*v) && note_is(n, *v),
            None => !is_note(*v),
        },
{
    let o = Some(v);
    let note_id = match i64_value(at_key(o, "noteId")) {
        Some(n) => n,
        None => {
            return None;
        },
    };
    let model_name = match str_value(at_key(o, "modelName")) {
        Some(m) => m,
        None => {
            return None;
        },
    };
    let mut tags: Vec<String> = Vec::new();
    match array_value(at_key(o, "tags")) {
        Some(items) => {
            let mut k: usize = 0;
            while k < items.len()
                invariant
                    k <= items@.len(),
                    tags@.map_values(|t: String| t@) == string_items(items@.take(k as int)),
                decreases items.len() - k,
            {
                assert(items@.take(k + 1).drop_last() =~= items@.take(k as int));
                match str_value(Some(&items[k])) {
                    Some(t) => {
                        let ghost before = tags@;
                        tags.push(t);
                        assert(tags@.map_values(|t: String| t@) =~= before.map_values(|t: String| t@).push(
                            tags@.last()@,
                        ));
                    },
                    None => {},
                }
                k += 1;
            }
            assert(items@.take(items@.len() as int) =~= items@);
        },
        None => {
            assert(tags@.map_values(|t: String| t@) =~= Seq::<Seq<char>>::empty());
        },
    }
    let mut fields: Vec<(String, NoteField)> = Vec::new();
    match member_of(v, "fields") {
        Some(JsonValue::Object(fs)) => {
            let mut k: usize = 0;
            while k < fs.len()
                invariant
                    k <= fs@.len(),
                    member(*v, "fields"@) == Some(JsonValue::Object(*fs)),
                    fields@.len() == k,
                    forall|i: int|
                        0 <= i < k ==> (#[trigger] fields@[i]).0@ == fs@[i].0@ && info_field_is(
                            fields@[i].1,
                            fs@[i].1,
                        ),
                decreases fs.len() - k,
            {
                let f = Some(&fs[k].1);
                proof {
                    reveal_strlit("");
                }
                let value = match str_value(at_key(f, "value")) {
                    Some(t) => t,
                    None => owned(""),
                };
                let order: i32 = match i64_value(at_key(f, "order")) {
                    Some(n) => n as i32,
                    None => 0,
                };
                fields.push((owned(fs[k].0.as_str()), NoteField { value, order }));
                k += 1;
            }
        },
        _ => {},
    }
    Some(NoteInfo { note_id, model_name, tags, fields })
}

/// The notes of a `notesInfo` result: one per element that has a `noteId`
/// and a `modelName` (see [`note_is`]), in order.
pub fn notes_from_result(result: &JsonValue) -> (r: Vec<NoteInfo>)
    ensures
        ({
            let found = note_elements(elements(Some(*result)));
            &&& r@.len() == found.len()
            &&& forall|i: int| 0 <= i < r@.len() ==> note_is(#[trigger] r@[i], found[i])
        }),
{
    let mut out: Vec<NoteInfo> = Vec::new();
    let items = match array_value(Some(result)) {
        Some(a) => a,
        None => {
            return out;
        },
    };
    let mut k: usize = 0;
    while k < items.len()
        invariant
            k <= items@.len(),
            items@ == elements(Some(*result)),
            out@.len() == note_elements(items@.take(k as int)).len(),
            forall|i: int| 0 <= i < out@.len() ==> note_is(#[trigger] out@[i], note_elements(items@.take(k as int))[i]),
        decreases items.len() - k,
    {
        assert(items@.take(k + 1).drop_last() =~= items@.take(k as int));
        assert(items@.take(k + 1).last() == items@[k as int]);
        match note_from_value(&items[k]) {
            Some(n) => {
                out.push(n);
            },
            None => {},
        }
        k += 1;
    }
    assert(items@.take(items@.len() as int) =~= items@);
    out
}

/// How long ago a note may have been created, in seconds, to be offered.
pub const MAX_NOTE_AGE_SECS: i64 = 300;

/// Whether a polled note is offered: not known before, and created (by the
/// milliseconds its ID encodes) within five minutes of `now_secs`.
pub open spec fn offered_note(id: i64, known: Seq<i64>, now_secs: i64) -> bool {
    let d = now_secs - div_toward_zero(id as int, 1000);
    &&& !known.contains(id)
    &&& -MAX_NOTE_AGE_SECS <= d <= MAX_NOTE_AGE_SECS
}

/// The notes of a poll to offer: each offered ID of `current` once (see
/// [`offered_note`]).
pub fn new_note_ids(current: &[i64], known: &[i64], now_secs: i64) -> (r: Vec<i64>)
    requires
        forall|i: int|
            0 <= i < current@.len() && !known@.contains(#[trigger] current@[i]) ==> i64::MIN < now_secs
                - div_toward_zero(current@[i] as int, 1000) <= i64::MAX,
    ensures
        forall|i: int, j: int| 0 <= i < j < r@.len() ==> r@[i] != r@[j],
        forall|x: i64| r@.contains(x) <==> (current@.contains(x) && offered_note(x, known@, now_secs)),
{
    let mut out: Vec<i64> = Vec::new();
    let mut k: usize = 0;
    while k < current.len()
        invariant
            k <= current@.len(),
            forall|i: int|
                0 <= i < current@.len() && !known@.contains(#[trigger] current@[i]) ==> i64::MIN < now_secs
                    - div_toward_zero(current@[i] as int, 1000) <= i64::MAX,
            forall|i: int, j: int| 0 <= i < j < out@.len() ==> out@[i] != out@[j],
            forall|x: i64|
                out@.contains(x) <==> ((exists|w: int| 0 <= w < k && #[trigger] current@[w] == x) && offered_note(
                    x,
                    known@,
                    now_secs,
                )),
        decreases current.len() - k,
    {
        let id = current[k];
        let mut in_known = false;
        let mut j: usize = 0;
        while j < known.len()
            invariant
                j <= known@.len(),
                in_known <==> exists|w: int| 0 <= w < j && #[trigger] known@[w] == id,
            decreases known.len() - j,
        {
            if known[j] == id {
                in_known = true;
            }
            j += 1;
        }
        let mut seen = false;
        let mut t: usize = 0;
        while t < out.len()
            invariant
                t <= out@.len(),
                seen <==> exists|w: int| 0 <= w < t && #[trigger] out@[w] == id,
            decreases out.len() - t,
        {
            if out[t] == id {
                seen = true;
            }
            t += 1;
        }
        let ghost before = out@;
        let ghost nk = k as int;
        assert(forall|x: i64|
            before.contains(x) <==> ((exists|w: int| 0 <= w < nk && #[trigger] current@[w] == x) && offered_note(
                x,
                known@,
                now_secs,
            )));
        if !in_known && !seen && -MAX_NOTE_AGE_SECS <= now_secs - id / 1000 && now_secs - id / 1000
            <= MAX_NOTE_AGE_SECS {
            out.push(id);
            proof {
                assert(out@[before.len() as int] == id);
                assert forall|x: i64|
                    out@.contains(x) <==> ((exists|w: int| 0 <= w < nk + 1 && #[trigger] current@[w] == x)
                        && offered_note(x, known@, now_secs)) by {
                    if out@.contains(x) {
                        let w = choose|w: int| 0 <= w < out@.len() && out@[w] == x;
                        if w < before.len() {
                            assert(before[w] == x);
                            assert(before.contains(x));
                        } else {
                            assert(current@[nk] == x);
                        }
                    }
                    if (exists|w: int| 0 <= w < nk + 1 && #[trigger] current@[w] == x) && offered_note(
                        x,
                        known@,
                        now_secs,
                    ) {
                        let w = choose|w: int| 0 <= w < nk + 1 && #[trigger] current@[w] == x;
                        if w < nk {
                            assert(before.contains(x));
                            let v = choose|v: int| 0 <= v < before.len() && before[v] == x;
                            assert(out@[v] == x);
                        } else {
                            assert(out@[before.len() as int] == x);
                        }
                    }
                }
            }
        } else {
            proof {
                assert forall|x: i64|
                    out@.contains(x) <==> ((exists|w: int| 0 <= w < nk + 1 && #[trigger] current@[w] == x)
                        && offered_note(x, known@, now_secs)) by {
                    if (exists|w: int| 0 <= w < nk + 1 && #[trigger] current@[w] == x) && offered_note(
                        x,
                        known@,
                        now_secs,
                    ) {
                        let w = choose|w: int| 0 <= w < nk + 1 && #[trigger] current@[w] == x;
                        if w == nk {
                            if in_known {
                                let v = choose|v: int| 0 <= v < known@.len() && #[trigger] known@[v] == id;
                                assert(known@.contains(id));
                            } else if seen {
                                let v = choose|v: int| 0 <= v < out@.len() && #[trigger] out@[v] == id;
                            }
                        }
                    }
                }
            }
        }
        k += 1;
    }
    out
}


// ---------------------------------------------------------------------------
// AnkiConnect retries
// ---------------------------------------------------------------------------

/// The delay before the first retry of a failed AnkiConnect request.
pub const FIRST_RETRY_DELAY_MS: u64 = 500;

/// The longest delay between retries.
pub const MAX_RETRY_DELAY_MS: u64 = 5_000;

/// The delay before the next retry: twice the last one, at most five
/// seconds.
pub fn next_retry_delay_ms(delay_ms: u64) -> (r: u64)
    ensures
        r == (if 2 * delay_ms < MAX_RETRY_DELAY_MS {
            2 * delay_ms
        } else {
            MAX_RETRY_DELAY_MS as int
        }),
{
    if delay_ms < MAX_RETRY_DELAY_MS / 2 + 1 && 2 * delay_ms < MAX_RETRY_DELAY_MS {
        2 * delay_ms
    } else {
        MAX_RETRY_DELAY_MS
    }
}


impl NoteInfo {
    /// Whether no field name occurs twice, as in a note Anki describes.
    pub open spec fn well_formed(self) -> bool {
        unique_field_names(self.fields@)
    }
}

/// Whether a JSON object's members have distinct keys (true of every object
/// a JSON parser builds).
pub open spec fn object_keys_distinct(v: Option<JsonValue>) -> bool {
    match v {
        Some(JsonValue::Object(fs)) => forall|i: int, j: int|
            0 <= i < j < fs@.len() ==> #[trigger] fs@[i].0@ != #[trigger] fs@[j].0@,
        _ => true,
    }
}

/// A note read from a `notesInfo` element whose `fields` object has
/// distinct keys has unique field names.
pub proof fn lemma_note_field_names_unique(n: NoteInfo, v: JsonValue)
    requires
        note_is(n, v),
        object_keys_distinct(member(v, "fields"@)),
    ensures
        n.well_formed(),
{
    let fields: Seq<(String, JsonValue)> = match member(v, "fields"@) {
        Some(JsonValue::Object(fs)) => fs@,
        _ => Seq::empty(),
    };
    assert forall|i: int, j: int| 0 <= i < j < n.fields@.len() implies #[trigger] n.fields@[i].0@
        != #[trigger] n.fields@[j].0@ by {
        assert(n.fields@[i].0@ == fields[i].0@);
        assert(n.fields@[j].0@ == fields[j].0@);
    }
}

/// Whether the named field holds a value that is not blank.
pub open spec fn holds_value(fields: Seq<(String, NoteField)>, name: Seq<char>) -> bool {
    match field_value(fields, name) {
        Some(v) => trim(v).len() > 0,
        None => false,
    }
}

/// With no note-type or tag filters, a new note is skipped exactly when a
/// media skip flag is on and every field guarded by an active flag already
/// holds a value: a guarded field that is missing or blank keeps the card
/// (audio present but picture empty still shows the card).
pub proof fn lemma_skipped_only_when_nothing_to_fill(note: NoteInfo, cfg: AnkiConfig)
    requires
        cfg.note_types@.len() == 0,
        cfg.ignore_tags@.len() == 0,
        cfg.require_tags@.len() == 0,
    ensures
        skips_note(note, cfg) <==> ((cfg.skip_if_audio_exists || cfg.skip_if_picture_exists) && (
        cfg.skip_if_audio_exists ==> holds_value(note.fields@, cfg.fields.sentence_audio@)) && (
        cfg.skip_if_picture_exists ==> holds_value(note.fields@, cfg.fields.picture@))),
        !holds_value(note.fields@, cfg.fields.picture@) && cfg.skip_if_picture_exists ==> !skips_note(note, cfg),
        !holds_value(note.fields@, cfg.fields.sentence_audio@) && cfg.skip_if_audio_exists ==> !skips_note(note, cfg),
{
}

} // verus!

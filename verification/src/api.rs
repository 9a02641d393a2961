//! Responses of the web API that are computed from the library's state.
use vstd::prelude::*;
use crate::anki::{NewCardEvent, NoteInfo, note_info_to_event, field_value};
use crate::config::MediaServerKind;
use crate::session::{SessionState, SubtitleCandidate, SubtitleSelectionMode, summary_position_from};
use crate::subtitle::{SubtitleLine, SubtitleTrack};
use crate::text::{append, append_str, i64_text, int_text, owned, string_of};

verus! {

/// The subtitle lines and track choices sent to the browser.
pub struct SubtitleData {
    pub lines: Vec<SubtitleLine>,
    pub count: usize,
    pub candidates: Vec<SubtitleCandidate>,
    pub selected_candidate_id: Option<String>,
    pub selection_mode: SubtitleSelectionMode,
}

/// The subtitle data of a history item: its lines, if a track is stored,
/// and no track choices.
pub fn history_subtitle_data(track: Option<SubtitleTrack>) -> (r: SubtitleData)
    ensures
        r.lines@ == (match track {
            Some(t) => t.lines@,
            None => Seq::empty(),
        }),
        r.count == r.lines@.len(),
        r.candidates@.len() == 0,
        r.selected_candidate_id is None,
        r.selection_mode == SubtitleSelectionMode::Auto,
{
    let lines = match track {
        Some(t) => t.lines,
        None => Vec::new(),
    };
    let count = lines.len();
    SubtitleData {
        lines,
        count,
        candidates: Vec::new(),
        selected_candidate_id: None,
        selection_mode: SubtitleSelectionMode::Auto,
    }
}

/// The new-card event of a note looked up for the enrichment dialog (the
/// sentence is the sentence field's value, or empty).
pub fn build_note_event(note: NoteInfo, sentence_field: &str) -> (r: NewCardEvent)
    ensures
        r.note_id == note.note_id,
        r.sentence@ == (match field_value(note.fields@, sentence_field@) {
            Some(v) => v,
            None => Seq::empty(),
        }),
        r.fields == note.fields,
        r.model_name == note.model_name,
        r.tags == note.tags,
{
    note_info_to_event(note, sentence_field)
}

/// The state of a note in the enhancement queue.
#[derive(Clone, Copy, Debug, PartialEq, Eq, Structural)]
pub enum EnhancementQueueState {
    Queued,
    Running,
}

/// The queue message of a note: `Queued note #{id}` or
/// `Enhancing note #{id}...`.
pub fn enhancement_queue_message(note_id: i64, queue_state: EnhancementQueueState) -> (r: String)
    ensures
        r@ == (match queue_state {
            EnhancementQueueState::Queued => "Queued note #"@ + int_text(note_id as int),
            EnhancementQueueState::Running => "Enhancing note #"@ + int_text(note_id as int) + "..."@,
        }),
{
    let mut t: Vec<char> = Vec::new();
    match queue_state {
        EnhancementQueueState::Queued => {
            append_str(&mut t, "Queued note #");
            append(&mut t, &i64_text(note_id));
        },
        EnhancementQueueState::Running => {
            append_str(&mut t, "Enhancing note #");
            append(&mut t, &i64_text(note_id));
            append_str(&mut t, "...");
        },
    }
    string_of(&t)
}

/// The Plex explanation for an item whose remote control is unavailable.
pub open spec fn plex_companion_message() -> Seq<char> {
    "Plex Web is not exposing companion control through Plex Media Server, so pause/play/seek cannot be driven from here."@
}

/// Why remote control is refused: Plex's companion explanation when the
/// active Plex item does not support remote control, else the general one.
pub fn remote_control_error(session_state: &SessionState, server_kind: MediaServerKind) -> (r: String)
    ensures
        r@ == (if server_kind == MediaServerKind::Plex && (session_state.now_playing matches Some(np)
            && !np.supports_remote_control) {
            plex_companion_message()
        } else {
            "Remote control is unavailable for the active session"@
        }),
{
    let unsupported = match &session_state.now_playing {
        Some(np) => !np.supports_remote_control,
        None => false,
    };
    if server_kind == MediaServerKind::Plex && unsupported {
        owned("Plex Web is not exposing companion control through Plex Media Server, so pause/play/seek cannot be driven from here.")
    } else {
        owned("Remote control is unavailable for the active session")
    }
}


/// The provider session ID of the active session, as a sequence of
/// characters, if the active session is listed.
pub open spec fn active_remote_id(state: SessionState) -> Option<Seq<char>> {
    match state.active_session_id {
        None => None,
        Some(a) => match summary_position_from(state.sessions@, a@, 0) {
            Some(k) => Some(state.sessions@[k].remote_session_id@),
            None => None,
        },
    }
}

/// Where a seek is sent: the server of the playing item, the provider's
/// session ID, and whether playback is paused now.
pub struct SeekTarget {
    pub server_kind: MediaServerKind,
    pub session_id: String,
    pub paused: bool,
}

/// The checks made before a seek, in order: an active session, a playing
/// item, remote control on that item, and a listed provider session.
pub fn seek_target(session_state: &SessionState) -> (r: Result<SeekTarget, String>)
    ensures
        session_state.active_session_id is None ==> (r matches Err(e) && e@
            == "No active session"@),
        session_state.active_session_id is Some && session_state.now_playing is None ==> (
        r matches Err(e) && e@ == "No active playback item"@),
        session_state.active_session_id is Some && session_state.now_playing is Some
            && !session_state.now_playing->0.supports_remote_control ==> (r matches Err(e) && e@
            == (if session_state.now_playing->0.server_kind == MediaServerKind::Plex {
            plex_companion_message()
        } else {
            "Remote control is unavailable for the active session"@
        })),
        session_state.active_session_id is Some && session_state.now_playing is Some
            && session_state.now_playing->0.supports_remote_control ==> match active_remote_id(
            *session_state,
        ) {
            None => r matches Err(e) && e@ == "Malformed session identifier"@,
            Some(id) => r matches Ok(t) && t.server_kind == session_state.now_playing->0.server_kind
                && t.session_id@ == id && t.paused == session_state.now_playing->0.is_paused,
        },
{
    if session_state.active_session_id.is_none() {
        return Err(owned("No active session"));
    }
    let np = match &session_state.now_playing {
        Some(np) => np,
        None => {
            return Err(owned("No active playback item"));
        },
    };
    if !np.supports_remote_control {
        return Err(remote_control_error(session_state, np.server_kind));
    }
    match session_state.active_remote_session_id() {
        Some(id) => Ok(SeekTarget { server_kind: np.server_kind, session_id: owned(id), paused: np.is_paused }),
        None => Err(owned("Malformed session identifier")),
    }
}

/// A play or pause command: the server it goes to, the provider's session
/// ID, and whether to pause.
pub struct PlayPauseCommand {
    pub server_kind: MediaServerKind,
    pub session_id: String,
    pub pause: bool,
}

/// The play/pause decision: the requested state, or the opposite of the
/// current one (playing when nothing is known); the command goes to the
/// playing item's server, Emby when no item is known.
pub fn play_pause_command(session_state: &SessionState, requested: Option<bool>) -> (r: Result<
    PlayPauseCommand,
    String,
>)
    ensures
        session_state.active_session_id is None ==> (r matches Err(e) && e@
            == "No active session"@),
        session_state.active_session_id is Some && session_state.now_playing is Some
            && !session_state.now_playing->0.supports_remote_control ==> (r matches Err(e) && e@
            == (if session_state.now_playing->0.server_kind == MediaServerKind::Plex {
            plex_companion_message()
        } else {
            "Remote control is unavailable for the active session"@
        })),
        session_state.active_session_id is Some && !(session_state.now_playing is Some
            && !session_state.now_playing->0.supports_remote_control) ==> match active_remote_id(*session_state) {
            None => r matches Err(e) && e@ == "Malformed session identifier"@,
            Some(id) => r matches Ok(c) && c.session_id@ == id && c.server_kind == (match session_state.now_playing {
                Some(np) => np.server_kind,
                None => MediaServerKind::Emby,
            }) && c.pause == (match requested {
                Some(p) => p,
                None => !(session_state.now_playing matches Some(np) && np.is_paused),
            }),
        },
{
    if session_state.active_session_id.is_none() {
        return Err(owned("No active session"));
    }
    let (kind, currently_paused, unsupported) = match &session_state.now_playing {
        Some(np) => (np.server_kind, np.is_paused, !np.supports_remote_control),
        None => (MediaServerKind::Emby, false, false),
    };
    let pause = match requested {
        Some(p) => p,
        None => !currently_paused,
    };
    if unsupported {
        return Err(remote_control_error(session_state, kind));
    }
    match session_state.active_remote_session_id() {
        Some(id) => Ok(PlayPauseCommand { server_kind: kind, session_id: owned(id), pause }),
        None => Err(owned("Malformed session identifier")),
    }
}

} // verus!

//! The address of Plex's notification websocket, and the playback
//! notifications it sends.
use vstd::prelude::*;
use crate::config::without_trailing_slashes;
use crate::json::{JsonValue, as_i64, as_str, at, member, member_of, at_key, str_value, i64_value, value_of};
use crate::text::{append, append_str, chars_of, has_prefix, slice_vec, starts_with_chars, string_of};

verus! {

/// Why a Plex URL cannot be turned into a websocket URL.
#[derive(Clone, Copy, Debug, PartialEq, Eq, Structural)]
pub enum UnsupportedScheme {
    /// The URL is not `http`, `https`, `ws` or `wss`.
    Unsupported,
}

/// The websocket base of a Plex URL (trailing slashes dropped): `https://`
/// becomes `wss://`, `http://` becomes `ws://`, websocket URLs are kept.
pub open spec fn websocket_base(base_url: Seq<char>) -> Option<Seq<char>> {
    let b = without_trailing_slashes(base_url);
    if has_prefix(b, "https://"@) {
        Some("wss://"@ + b.skip(8))
    } else if has_prefix(b, "http://"@) {
        Some("ws://"@ + b.skip(7))
    } else if has_prefix(b, "wss://"@) || has_prefix(b, "ws://"@) {
        Some(b)
    } else {
        None
    }
}

/// The notification websocket URL of a Plex server.
pub fn websocket_url(base_url: &str, token: &str) -> (r: Result<String, UnsupportedScheme>)
    ensures
        match r {
            Ok(u) => websocket_base(base_url@) matches Some(b) && u@ == b
                + "/:/websockets/notifications?X-Plex-Token="@ + token@,
            Err(_) => websocket_base(base_url@) is None,
        },
{
    let s = chars_of(base_url);
    let mut j = s.len();
    assert(s@.take(j as int) =~= s@);
    while j > 0 && s[j - 1] == '/'
        invariant
            j <= s@.len(),
            without_trailing_slashes(s@) == without_trailing_slashes(s@.take(j as int)),
        decreases j,
    {
        assert(s@.take(j as int).drop_last() =~= s@.take(j - 1));
        j -= 1;
    }
    let b = slice_vec(&s, 0, j);
    assert(b@ =~= s@.take(j as int));
    proof {
        reveal_strlit("https://");
        reveal_strlit("http://");
    }
    let mut out: Vec<char> = Vec::new();
    if starts_with_chars(&b, &chars_of("https://")) {
        append_str(&mut out, "wss://");
        let rest = slice_vec(&b, 8, b.len());
        assert(rest@ =~= b@.skip(8));
        append(&mut out, &rest);
    } else if starts_with_chars(&b, &chars_of("http://")) {
        append_str(&mut out, "ws://");
        let rest = slice_vec(&b, 7, b.len());
        assert(rest@ =~= b@.skip(7));
        append(&mut out, &rest);
    } else if starts_with_chars(&b, &chars_of("wss://")) || starts_with_chars(&b, &chars_of("ws://")) {
        append(&mut out, &b);
    } else {
        return Err(UnsupportedScheme::Unsupported);
    }
    append_str(&mut out, "/:/websockets/notifications?X-Plex-Token=");
    append_str(&mut out, token);
    Ok(string_of(&out))
}


/// A playback notification from Plex's websocket.
pub struct PlexPlayingNotification {
    pub client_identifier: String,
    pub rating_key: String,
    pub view_offset: Option<i64>,
    pub state: String,
}

/// A notification container: its type and its playback notifications.
pub struct PlexNotification {
    pub kind: String,
    pub playing: Vec<PlexPlayingNotification>,
}

/// The `viewOffset` field: missing or `null` reads as no offset, an integer
/// within `i64` as that offset; anything else does not parse.
pub open spec fn view_offset_field(o: Option<JsonValue>) -> Option<Option<i64>> {
    match o {
        None => Some(None),
        Some(JsonValue::Null) => Some(None),
        _ => match as_i64(o) {
            Some(n) => Some(Some(n)),
            None => None,
        },
    }
}

/// Whether a value reads as a playback notification: an object with string
/// `clientIdentifier`, `ratingKey` and `state`, and a readable `viewOffset`.
pub open spec fn notification_parses(v: JsonValue) -> bool {
    &&& as_str(member(v, "clientIdentifier"@)) is Some
    &&& as_str(member(v, "ratingKey"@)) is Some
    &&& view_offset_field(member(v, "viewOffset"@)) is Some
    &&& as_str(member(v, "state"@)) is Some
}

/// Whether `n` holds the fields of the notification `v`.
pub open spec fn notification_read_from(n: PlexPlayingNotification, v: JsonValue) -> bool {
    &&& as_str(member(v, "clientIdentifier"@)) == Some(n.client_identifier@)
    &&& as_str(member(v, "ratingKey"@)) == Some(n.rating_key@)
    &&& view_offset_field(member(v, "viewOffset"@)) == Some(n.view_offset)
    &&& as_str(member(v, "state"@)) == Some(n.state@)
}

/// The playback notifications of a container: none when the member is
/// missing, the elements when it is an array; anything else does not parse.
pub open spec fn playing_list(container: Option<JsonValue>) -> Option<Seq<JsonValue>> {
    match at(container, "PlaySessionStateNotification"@) {
        None => Some(Seq::empty()),
        Some(JsonValue::Array(a)) => Some(a@),
        Some(_) => None,
    }
}

/// Whether a websocket payload reads as a notification envelope: a
/// `NotificationContainer` with a string `type` and a list of playback
/// notifications that each read.
pub open spec fn envelope_parses(payload: JsonValue) -> bool {
    let container = member(payload, "NotificationContainer"@);
    &&& as_str(at(container, "type"@)) is Some
    &&& playing_list(container) matches Some(els) && forall|i: int|
        0 <= i < els.len() ==> notification_parses(#[trigger] els[i])
}

/// Whether the first `k` values read and `ns` holds what they read, in order.
pub open spec fn read_prefix(ns: Seq<PlexPlayingNotification>, vs: Seq<JsonValue>, k: int) -> bool {
    &&& ns.len() == k
    &&& forall|i: int| 0 <= i < k ==> #[trigger] notification_entry(ns[i], vs[i])
}

/// Whether `v` reads as a notification and `n` holds what it reads.
pub open spec fn notification_entry(n: PlexPlayingNotification, v: JsonValue) -> bool {
    notification_parses(v) && notification_read_from(n, v)
}

proof fn lemma_read_prefix_push(
    ns: Seq<PlexPlayingNotification>,
    vs: Seq<JsonValue>,
    k: int,
    n: PlexPlayingNotification,
)
    requires
        read_prefix(ns, vs, k),
        0 <= k < vs.len(),
        notification_parses(vs[k]),
        notification_read_from(n, vs[k]),
    ensures
        read_prefix(ns.push(n), vs, k + 1),
{
    assert forall|i: int| 0 <= i < k + 1 implies #[trigger] notification_entry(ns.push(n)[i], vs[i]) by {
        if i < k {
            assert(ns.push(n)[i] == ns[i]);
        }
    }
}

/// One playback notification, if the value reads as one.
pub fn parse_playing_notification(v: &JsonValue) -> (r: Option<PlexPlayingNotification>)
    ensures
        r is Some <==> notification_parses(*v),
        r matches Some(n) ==> notification_read_from(n, *v),
{
    let client_identifier = str_value(member_of(v, "clientIdentifier"));
    let rating_key = str_value(member_of(v, "ratingKey"));
    let state = str_value(member_of(v, "state"));
    let offset = member_of(v, "viewOffset");
    let view_offset = match offset {
        None => None,
        Some(JsonValue::Null) => None,
        Some(_) => match i64_value(offset) {
            Some(n) => Some(n),
            None => {
                return None;
            },
        },
    };
    match (client_identifier, rating_key, state) {
        (Some(client_identifier), Some(rating_key), Some(state)) => Some(
            PlexPlayingNotification { client_identifier, rating_key, view_offset, state },
        ),
        _ => None,
    }
}

/// The notification envelope of a websocket payload, if it reads as one.
pub fn parse_notification(payload: &JsonValue) -> (r: Option<PlexNotification>)
    ensures
        r is Some <==> envelope_parses(*payload),
        r matches Some(n) ==> {
            let container = member(*payload, "NotificationContainer"@);
            &&& as_str(at(container, "type"@)) == Some(n.kind@)
            &&& playing_list(container) matches Some(els) && n.playing@.len() == els.len()
                && forall|i: int|
                0 <= i < els.len() ==> notification_read_from(#[trigger] n.playing@[i], els[i])
        },
{
    let container = member_of(payload, "NotificationContainer");
    let kind = match str_value(at_key(container, "type")) {
        Some(k) => k,
        None => {
            return None;
        },
    };
    let list = at_key(container, "PlaySessionStateNotification");
    let mut playing: Vec<PlexPlayingNotification> = Vec::new();
    match list {
        None => {},
        Some(JsonValue::Array(els)) => {
            let mut k: usize = 0;
            while k < els.len()
                invariant
                    k <= els@.len(),
                    value_of(container) == member(*payload, "NotificationContainer"@),
                    as_str(at(value_of(container), "type"@)) == Some(kind@),
                    playing_list(value_of(container)) == Some(els@),
                read_prefix(playing@, els@, k as int),
                decreases els.len() - k,
            {
                let parsed = parse_playing_notification(&els[k]);
                let n = match parsed {
                    Some(n) => n,
                    None => {
                        assert(!notification_parses(els@[k as int]));
                        return None;
                    },
                };
                assert(notification_parses(els@[k as int]));
                let ghost before = playing@;
                let ghost read = n;
                playing.push(n);
                proof {
                    lemma_read_prefix_push(before, els@, k as int, read);
                }
                k += 1;
            }
            assert forall|i: int| 0 <= i < els@.len() implies notification_parses(#[trigger] els@[i])
                && notification_read_from(playing@[i], els@[i]) by {
                assert(notification_entry(playing@[i], els@[i]));
            }
            assert forall|i: int| 0 <= i < els@.len() implies notification_read_from(
                #[trigger] playing@[i],
                els@[i],
            ) by {
                assert(notification_entry(playing@[i], els@[i]));
            }
        },
        Some(_) => {
            return None;
        },
    }
    Some(PlexNotification { kind, playing })
}

/// The playback notifications to act on: those of a `playing` container;
/// none for any other container or a payload that does not read.
pub fn playing_notifications(payload: &JsonValue) -> (r: Vec<PlexPlayingNotification>)
    ensures
        (envelope_parses(*payload) && as_str(at(member(*payload, "NotificationContainer"@), "type"@))
            == Some("playing"@)) ==> (playing_list(member(*payload, "NotificationContainer"@)) matches Some(els)
            && r@.len() == els.len() && forall|i: int|
            0 <= i < els.len() ==> notification_read_from(#[trigger] r@[i], els[i])),
        !(envelope_parses(*payload) && as_str(at(member(*payload, "NotificationContainer"@), "type"@))
            == Some("playing"@)) ==> r@.len() == 0,
{
    match parse_notification(payload) {
        Some(n) => {
            if crate::text::str_equal(n.kind.as_str(), "playing") {
                n.playing
            } else {
                Vec::new()
            }
        },
        None => Vec::new(),
    }
}

} // verus!

//! The sessions observed over recent polls: what each poll reports is
//! recorded, and a session that stops being reported is kept a little
//! longer only while its connection is still reported (a shared row).
use vstd::prelude::*;
use crate::media_server::{Session, same_session};
use crate::session::{
    ServerSession, connection_unshared, keeps_observed, keeps_observed_session,
    remote_control_allowed, server_session_key,
};
use crate::text::str_equal;
use crate::config::{Config, MediaServerKind, allowed_list, user_passes};
use crate::session::{ignored_episode, is_ignored_episode, session_is_visible, visible_at};

verus! {

/// A session seen in recent polls, and when a poll last reported it (ms).
pub struct ObservedSession {
    pub session: ServerSession,
    pub last_seen_ms: u64,
}

/// The entry for a session reported now: reported, newly observed when its
/// key was not observed before.
pub open spec fn reported_entry(s: ServerSession, newly: bool, now_ms: u64) -> ObservedSession {
    ObservedSession {
        session: ServerSession {
            kind: s.kind,
            server_id: s.server_id,
            session: s.session,
            reported: true,
            newly_observed: newly,
        },
        last_seen_ms: now_ms,
    }
}

/// A kept entry that this poll did not report.
pub open spec fn quiet_entry(e: ObservedSession) -> ObservedSession {
    ObservedSession {
        session: ServerSession {
            kind: e.session.kind,
            server_id: e.session.server_id,
            session: e.session.session,
            reported: false,
            newly_observed: false,
        },
        last_seen_ms: e.last_seen_ms,
    }
}

/// The first entry at or after `k` with the given key.
pub open spec fn entry_with_key(es: Seq<ObservedSession>, key: Seq<char>, k: int) -> Option<int>
    decreases es.len() - k,
{
    if k < 0 || k >= es.len() {
        None
    } else if server_session_key(es[k].session) == key {
        Some(k)
    } else {
        entry_with_key(es, key, k + 1)
    }
}

/// The previous entries that a poll keeps (see [`keeps_observed`]), in
/// order, marked as not reported.
pub open spec fn retained_entries(
    old: Seq<ObservedSession>,
    reported: Seq<ServerSession>,
    now_ms: u64,
) -> Seq<ObservedSession>
    decreases old.len(),
{
    if old.len() == 0 {
        Seq::empty()
    } else {
        let rest = retained_entries(old.skip(1), reported, now_ms);
        if keeps_observed(old[0].session, old[0].last_seen_ms, reported, now_ms) {
            seq![quiet_entry(old[0])] + rest
        } else {
            rest
        }
    }
}

/// Records one reported session: one that plays nothing is ignored; else
/// its entry replaces the entry with its key, or is added.
pub open spec fn record_session(es: Seq<ObservedSession>, s: ServerSession, now_ms: u64) -> Seq<
    ObservedSession,
> {
    if s.session.now_playing is None {
        es
    } else {
        match entry_with_key(es, server_session_key(s), 0) {
            Some(k) => es.update(k, reported_entry(s, false, now_ms)),
            None => es.push(reported_entry(s, true, now_ms)),
        }
    }
}

/// Records the reported sessions in order.
pub open spec fn record_all(es: Seq<ObservedSession>, reported: Seq<ServerSession>, now_ms: u64) -> Seq<
    ObservedSession,
>
    decreases reported.len(),
{
    if reported.len() == 0 {
        es
    } else {
        record_all(record_session(es, reported[0], now_ms), reported.skip(1), now_ms)
    }
}

/// The observed entries after a poll.
pub open spec fn observed_after(
    old: Seq<ObservedSession>,
    reported: Seq<ServerSession>,
    now_ms: u64,
) -> Seq<ObservedSession> {
    record_all(retained_entries(old, reported, now_ms), reported, now_ms)
}

/// No key occurs twice.
pub open spec fn keys_distinct(es: Seq<ObservedSession>) -> bool {
    forall|i: int, j: int|
        0 <= i < j < es.len() ==> server_session_key(#[trigger] es[i].session) != server_session_key(
            #[trigger] es[j].session,
        )
}

/// Every entry plays an item.
pub open spec fn all_playing(es: Seq<ObservedSession>) -> bool {
    forall|i: int| 0 <= i < es.len() ==> (#[trigger] es[i]).session.session.now_playing is Some
}

/// The sessions of the entries.
pub open spec fn sessions_of(es: Seq<ObservedSession>) -> Seq<ServerSession> {
    es.map_values(|e: ObservedSession| e.session)
}

/// A session with remote control turned off.
pub open spec fn without_remote_control(s: ServerSession) -> ServerSession {
    ServerSession {
        kind: s.kind,
        server_id: s.server_id,
        session: Session {
            id: s.session.id,
            playback_session_id: s.session.playback_session_id,
            client: s.session.client,
            device_name: s.session.device_name,
            user_name: s.session.user_name,
            user_id: s.session.user_id,
            last_activity_at_ms: s.session.last_activity_at_ms,
            now_playing: s.session.now_playing,
            play_state: s.session.play_state,
            supports_remote_control: false,
        },
        reported: s.reported,
        newly_observed: s.newly_observed,
    }
}

/// The `k`-th session as listed: remote control is turned off when another
/// listed session shares its connection (see [`connection_unshared`]).
pub open spec fn listed_session(ss: Seq<ServerSession>, k: int) -> ServerSession {
    if connection_unshared(ss, k) {
        ss[k]
    } else {
        without_remote_control(ss[k])
    }
}

/// Whether two server sessions hold the same values.
pub open spec fn same_server_session(a: ServerSession, b: ServerSession) -> bool {
    &&& a.kind == b.kind
    &&& a.server_id == b.server_id
    &&& same_session(a.session, b.session)
    &&& a.reported == b.reported
    &&& a.newly_observed == b.newly_observed
}


/// A copy of a server session.
fn copy_server_session(s: &ServerSession) -> (r: ServerSession)
    ensures
        same_server_session(r, *s),
{
    ServerSession {
        kind: s.kind,
        server_id: s.server_id,
        session: s.session.clone(),
        reported: s.reported,
        newly_observed: s.newly_observed,
    }
}

proof fn lemma_retained_from(old: Seq<ObservedSession>, reported: Seq<ServerSession>, now_ms: u64)
    ensures
        forall|i: int|
            0 <= i < retained_entries(old, reported, now_ms).len() ==> exists|j: int|
                0 <= j < old.len() && #[trigger] retained_entries(old, reported, now_ms)[i]
                    == quiet_entry(old[j]) && keeps_observed(old[j].session, old[j].last_seen_ms, reported, now_ms),
    decreases old.len(),
{
    if old.len() > 0 {
        lemma_retained_from(old.skip(1), reported, now_ms);
        let rest = retained_entries(old.skip(1), reported, now_ms);
        let all = retained_entries(old, reported, now_ms);
        assert forall|i: int| 0 <= i < all.len() implies exists|j: int|
            0 <= j < old.len() && #[trigger] all[i] == quiet_entry(old[j]) && keeps_observed(
                old[j].session,
                old[j].last_seen_ms,
                reported,
                now_ms,
            ) by {
            if keeps_observed(old[0].session, old[0].last_seen_ms, reported, now_ms) {
                if i == 0 {
                    assert(all[0] == quiet_entry(old[0]));
                } else {
                    assert(all[i] == rest[i - 1]);
                    let j = choose|j: int|
                        0 <= j < old.skip(1).len() && rest[i - 1] == quiet_entry(old.skip(1)[j])
                            && keeps_observed(old.skip(1)[j].session, old.skip(1)[j].last_seen_ms, reported, now_ms);
                    assert(old.skip(1)[j] == old[j + 1]);
                }
            } else {
                let j = choose|j: int|
                    0 <= j < old.skip(1).len() && rest[i] == quiet_entry(old.skip(1)[j])
                        && keeps_observed(old.skip(1)[j].session, old.skip(1)[j].last_seen_ms, reported, now_ms);
                assert(old.skip(1)[j] == old[j + 1]);
            }
        }
    }
}

proof fn lemma_retained_well_formed(old: Seq<ObservedSession>, reported: Seq<ServerSession>, now_ms: u64)
    requires
        keys_distinct(old),
        all_playing(old),
    ensures
        keys_distinct(retained_entries(old, reported, now_ms)),
        all_playing(retained_entries(old, reported, now_ms)),
    decreases old.len(),
{
    if old.len() > 0 {
        let tail = old.skip(1);
        assert forall|i: int, j: int| 0 <= i < j < tail.len() implies server_session_key(
            #[trigger] tail[i].session,
        ) != server_session_key(#[trigger] tail[j].session) by {
            assert(tail[i] == old[i + 1] && tail[j] == old[j + 1]);
        }
        assert forall|i: int| 0 <= i < tail.len() implies (#[trigger] tail[i]).session.session.now_playing is Some by {
            assert(tail[i] == old[i + 1]);
        }
        lemma_retained_well_formed(tail, reported, now_ms);
        lemma_retained_from(tail, reported, now_ms);
        let rest = retained_entries(tail, reported, now_ms);
        if keeps_observed(old[0].session, old[0].last_seen_ms, reported, now_ms) {
            let all = retained_entries(old, reported, now_ms);
            assert(all == seq![quiet_entry(old[0])] + rest);
            assert forall|i: int| 0 <= i < rest.len() implies server_session_key(quiet_entry(old[0]).session)
                != server_session_key(#[trigger] rest[i].session) by {
                let j = choose|j: int|
                    0 <= j < tail.len() && rest[i] == quiet_entry(tail[j]) && keeps_observed(
                        tail[j].session,
                        tail[j].last_seen_ms,
                        reported,
                        now_ms,
                    );
                assert(tail[j] == old[j + 1]);
                assert(server_session_key(old[0].session) != server_session_key(old[j + 1].session));
            }
            assert forall|i: int, j: int| 0 <= i < j < all.len() implies server_session_key(
                #[trigger] all[i].session,
            ) != server_session_key(#[trigger] all[j].session) by {
                if i == 0 {
                    assert(all[j] == rest[j - 1]);
                } else {
                    assert(all[i] == rest[i - 1] && all[j] == rest[j - 1]);
                }
            }
            assert forall|i: int| 0 <= i < all.len() implies (#[trigger] all[i]).session.session.now_playing is Some by {
                if i > 0 {
                    assert(all[i] == rest[i - 1]);
                }
            }
        }
    }
}

/// Records `s` in `es` (see [`record_session`]).
fn record_into(es: &mut Vec<ObservedSession>, s: ServerSession, now_ms: u64)
    requires
        keys_distinct(old(es)@),
        all_playing(old(es)@),
    ensures
        final(es)@ == record_session(old(es)@, s, now_ms),
        keys_distinct(final(es)@),
        all_playing(final(es)@),
{
    if s.session.now_playing.is_none() {
        return;
    }
    let key = s.id();
    let mut k: usize = 0;
    while k < es.len()
        invariant
            k <= es@.len(),
            es@ == old(es)@,
            keys_distinct(old(es)@),
            all_playing(old(es)@),
            s.session.now_playing is Some,
            key@ == server_session_key(s),
            entry_with_key(es@, key@, 0) == entry_with_key(es@, key@, k as int),
            forall|j: int| 0 <= j < k ==> server_session_key((#[trigger] es@[j]).session) != key@,
        decreases es.len() - k,
    {
        let id = es[k].session.id();
        if str_equal(id.as_str(), key.as_str()) {
            let ghost before = es@;
            let entry = ObservedSession {
                session: ServerSession {
                    kind: s.kind,
                    server_id: s.server_id,
                    session: s.session,
                    reported: true,
                    newly_observed: false,
                },
                last_seen_ms: now_ms,
            };
            es.set(k, entry);
            assert(es@ == before.update(k as int, reported_entry(s, false, now_ms)));
            assert forall|i: int, j: int| 0 <= i < j < es@.len() implies server_session_key(
                #[trigger] es@[i].session,
            ) != server_session_key(#[trigger] es@[j].session) by {
                assert(server_session_key(es@[k as int].session) == server_session_key(before[k as int].session));
                if i != k {
                    assert(es@[i] == before[i]);
                }
                if j != k {
                    assert(es@[j] == before[j]);
                }
            }
            assert forall|i: int| 0 <= i < es@.len() implies (#[trigger] es@[i]).session.session.now_playing is Some by {
                if i != k {
                    assert(es@[i] == before[i]);
                }
            }
            return;
        }
        k += 1;
    }
    let ghost before = es@;
    es.push(
        ObservedSession {
            session: ServerSession {
                kind: s.kind,
                server_id: s.server_id,
                session: s.session,
                reported: true,
                newly_observed: true,
            },
            last_seen_ms: now_ms,
        },
    );
    assert(es@ == before.push(reported_entry(s, true, now_ms)));
    assert forall|i: int, j: int| 0 <= i < j < es@.len() implies server_session_key(
        #[trigger] es@[i].session,
    ) != server_session_key(#[trigger] es@[j].session) by {
        assert(es@[i] == before[i]);
        if j < before.len() {
            assert(es@[j] == before[j]);
        }
    }
    assert forall|i: int| 0 <= i < es@.len() implies (#[trigger] es@[i]).session.session.now_playing is Some by {
        if i < before.len() {
            assert(es@[i] == before[i]);
        }
    }
}


proof fn lemma_unshared_transfer(a: Seq<ServerSession>, b: Seq<ServerSession>, k: int)
    requires
        a.len() == b.len(),
        0 <= k < a.len(),
        forall|i: int| 0 <= i < a.len() ==> same_server_session(#[trigger] a[i], b[i]),
    ensures
        connection_unshared(a, k) == connection_unshared(b, k),
{
    assert(same_server_session(a[k], b[k]));
    if connection_unshared(a, k) {
        assert forall|j: int| 0 <= j < b.len() && j != k implies !((#[trigger] b[j]).kind == b[k].kind
            && b[j].session.id@ == b[k].session.id@) by {
            assert(same_server_session(a[j], b[j]));
        }
    }
    if connection_unshared(b, k) {
        assert forall|j: int| 0 <= j < a.len() && j != k implies !((#[trigger] a[j]).kind == a[k].kind
            && a[j].session.id@ == a[k].session.id@) by {
            assert(same_server_session(a[j], b[j]));
        }
    }
}


/// Whether an entry with the key was reported at `now_ms`.
pub open spec fn reported_now(es: Seq<ObservedSession>, key: Seq<char>, now_ms: u64) -> bool {
    exists|i: int|
        0 <= i < es.len() && server_session_key((#[trigger] es[i]).session) == key
            && es[i].session.reported && es[i].last_seen_ms == now_ms
}

/// Whether every entry that is not reported is a kept previous entry.
pub open spec fn unreported_were_kept(
    es: Seq<ObservedSession>,
    old: Seq<ObservedSession>,
    reported: Seq<ServerSession>,
    now_ms: u64,
) -> bool {
    forall|i: int|
        0 <= i < es.len() && !(#[trigger] es[i]).session.reported ==> exists|j: int|
            0 <= j < old.len() && es[i] == quiet_entry(old[j]) && keeps_observed(
                old[j].session,
                old[j].last_seen_ms,
                reported,
                now_ms,
            )
}

proof fn lemma_entry_with_key_found(es: Seq<ObservedSession>, key: Seq<char>, k: int)
    requires
        0 <= k,
    ensures
        entry_with_key(es, key, k) matches Some(i) ==> k <= i < es.len() && server_session_key(
            es[i].session,
        ) == key,
    decreases es.len() - k,
{
    if k < es.len() && server_session_key(es[k].session) != key {
        lemma_entry_with_key_found(es, key, k + 1);
    }
}

proof fn lemma_entry_with_key_absent(es: Seq<ObservedSession>, key: Seq<char>, k: int)
    requires
        0 <= k,
        entry_with_key(es, key, k) is None,
    ensures
        forall|i: int| k <= i < es.len() ==> server_session_key((#[trigger] es[i]).session) != key,
    decreases es.len() - k,
{
    if k < es.len() {
        lemma_entry_with_key_absent(es, key, k + 1);
    }
}

proof fn lemma_record_session_facts(es: Seq<ObservedSession>, s: ServerSession, now_ms: u64, key: Seq<char>)
    ensures
        reported_now(es, key, now_ms) ==> reported_now(record_session(es, s, now_ms), key, now_ms),
        s.session.now_playing is Some ==> reported_now(
            record_session(es, s, now_ms),
            server_session_key(s),
            now_ms,
        ),
        record_session(es, s, now_ms).len() >= es.len(),
        forall|i: int|
            0 <= i < record_session(es, s, now_ms).len() && !(#[trigger] record_session(
                es,
                s,
                now_ms,
            )[i]).session.reported ==> i < es.len() && record_session(es, s, now_ms)[i] == es[i],
{
    lemma_entry_with_key_found(es, server_session_key(s), 0);
    let out = record_session(es, s, now_ms);
    if s.session.now_playing is Some {
        match entry_with_key(es, server_session_key(s), 0) {
            Some(k) => {
                assert(out[k] == reported_entry(s, false, now_ms));
                if reported_now(es, key, now_ms) {
                    let i = choose|i: int|
                        0 <= i < es.len() && server_session_key((#[trigger] es[i]).session) == key
                            && es[i].session.reported && es[i].last_seen_ms == now_ms;
                    if i == k {
                        assert(server_session_key(out[k].session) == server_session_key(s));
                        assert(server_session_key(out[k].session) == key);
                    } else {
                        assert(out[i] == es[i]);
                    }
                }
                assert(server_session_key(out[k].session) == server_session_key(s));
            },
            None => {
                let n = es.len() as int;
                assert(out[n] == reported_entry(s, true, now_ms));
                assert(server_session_key(out[n].session) == server_session_key(s));
                if reported_now(es, key, now_ms) {
                    let i = choose|i: int|
                        0 <= i < es.len() && server_session_key((#[trigger] es[i]).session) == key
                            && es[i].session.reported && es[i].last_seen_ms == now_ms;
                    assert(out[i] == es[i]);
                }
            },
        }
    }
}

proof fn lemma_record_all_facts(
    es: Seq<ObservedSession>,
    reported: Seq<ServerSession>,
    now_ms: u64,
    key: Seq<char>,
)
    ensures
        reported_now(es, key, now_ms) ==> reported_now(record_all(es, reported, now_ms), key, now_ms),
        forall|i: int|
            0 <= i < record_all(es, reported, now_ms).len() && !(#[trigger] record_all(
                es,
                reported,
                now_ms,
            )[i]).session.reported ==> i < es.len() && record_all(es, reported, now_ms)[i] == es[i],
    decreases reported.len(),
{
    if reported.len() > 0 {
        let next = record_session(es, reported[0], now_ms);
        lemma_record_session_facts(es, reported[0], now_ms, key);
        lemma_record_all_facts(next, reported.skip(1), now_ms, key);
    }
}

proof fn lemma_record_all_adds(es: Seq<ObservedSession>, reported: Seq<ServerSession>, now_ms: u64, j: int)
    requires
        0 <= j < reported.len(),
        reported[j].session.now_playing is Some,
    ensures
        reported_now(record_all(es, reported, now_ms), server_session_key(reported[j]), now_ms),
    decreases reported.len(),
{
    let next = record_session(es, reported[0], now_ms);
    let key = server_session_key(reported[j]);
    if j == 0 {
        lemma_record_session_facts(es, reported[0], now_ms, key);
        lemma_record_all_facts(next, reported.skip(1), now_ms, key);
    } else {
        assert(reported.skip(1)[j - 1] == reported[j]);
        lemma_record_all_adds(next, reported.skip(1), now_ms, j - 1);
    }
}

/// After a poll, every reported session that plays an item is observed
/// under its key, as reported at that poll's time.
pub proof fn lemma_reported_sessions_are_observed(
    old: Seq<ObservedSession>,
    reported: Seq<ServerSession>,
    now_ms: u64,
)
    ensures
        forall|j: int|
            0 <= j < reported.len() && (#[trigger] reported[j]).session.now_playing is Some
                ==> reported_now(observed_after(old, reported, now_ms), server_session_key(reported[j]), now_ms),
{
    assert forall|j: int|
        0 <= j < reported.len() && (#[trigger] reported[j]).session.now_playing is Some implies reported_now(
        observed_after(old, reported, now_ms),
        server_session_key(reported[j]),
        now_ms,
    ) by {
        lemma_record_all_adds(retained_entries(old, reported, now_ms), reported, now_ms, j);
    }
}

/// After a poll, a session that the poll did not report is only kept when
/// it was seen within the retention time and a reported playing session
/// shares its connection (see [`keeps_observed`]); it is kept unchanged but
/// for being marked as not reported.
pub proof fn lemma_only_shared_rows_are_retained(
    old: Seq<ObservedSession>,
    reported: Seq<ServerSession>,
    now_ms: u64,
)
    ensures
        unreported_were_kept(observed_after(old, reported, now_ms), old, reported, now_ms),
{
    let kept = retained_entries(old, reported, now_ms);
    let out = observed_after(old, reported, now_ms);
    lemma_record_all_facts(kept, reported, now_ms, Seq::empty());
    lemma_retained_from(old, reported, now_ms);
    assert forall|i: int| 0 <= i < out.len() && !(#[trigger] out[i]).session.reported implies exists|j: int|
        0 <= j < old.len() && out[i] == quiet_entry(old[j]) && keeps_observed(
            old[j].session,
            old[j].last_seen_ms,
            reported,
            now_ms,
        ) by {
        assert(out[i] == kept[i]);
    }
}


/// Whether an entry has the key.
pub open spec fn has_key(es: Seq<ObservedSession>, key: Seq<char>) -> bool {
    exists|i: int| 0 <= i < es.len() && server_session_key((#[trigger] es[i]).session) == key
}

/// Whether every newly observed entry has a key that `base` lacks, and
/// every key of `base` is present.
pub open spec fn new_keys_outside(es: Seq<ObservedSession>, base: Seq<ObservedSession>) -> bool {
    &&& forall|i: int|
        0 <= i < es.len() && (#[trigger] es[i]).session.newly_observed ==> !has_key(
            base,
            server_session_key(es[i].session),
        )
    &&& forall|j: int| 0 <= j < base.len() ==> has_key(es, server_session_key((#[trigger] base[j]).session))
}

proof fn lemma_retained_contains(old: Seq<ObservedSession>, reported: Seq<ServerSession>, now_ms: u64)
    ensures
        forall|j: int|
            0 <= j < old.len() && keeps_observed(
                (#[trigger] old[j]).session,
                old[j].last_seen_ms,
                reported,
                now_ms,
            ) ==> has_key(retained_entries(old, reported, now_ms), server_session_key(old[j].session)),
    decreases old.len(),
{
    if old.len() > 0 {
        let tail = old.skip(1);
        lemma_retained_contains(tail, reported, now_ms);
        let rest = retained_entries(tail, reported, now_ms);
        let all = retained_entries(old, reported, now_ms);
        assert forall|j: int|
            0 <= j < old.len() && keeps_observed(
                (#[trigger] old[j]).session,
                old[j].last_seen_ms,
                reported,
                now_ms,
            ) implies has_key(all, server_session_key(old[j].session)) by {
            let kept_first = keeps_observed(old[0].session, old[0].last_seen_ms, reported, now_ms);
            if j == 0 {
                assert(all[0] == quiet_entry(old[0]));
            } else {
                assert(tail[j - 1] == old[j]);
                let i = choose|i: int|
                    0 <= i < rest.len() && server_session_key((#[trigger] rest[i]).session)
                        == server_session_key(tail[j - 1].session);
                if kept_first {
                    assert(all[i + 1] == rest[i]);
                } else {
                    assert(all[i] == rest[i]);
                }
            }
        }
    }
}

proof fn lemma_record_session_new_keys(
    es: Seq<ObservedSession>,
    s: ServerSession,
    now_ms: u64,
    base: Seq<ObservedSession>,
)
    requires
        new_keys_outside(es, base),
    ensures
        new_keys_outside(record_session(es, s, now_ms), base),
{
    lemma_entry_with_key_found(es, server_session_key(s), 0);
    let out = record_session(es, s, now_ms);
    if s.session.now_playing is Some {
        match entry_with_key(es, server_session_key(s), 0) {
            Some(k) => {
                assert forall|i: int|
                    0 <= i < out.len() && (#[trigger] out[i]).session.newly_observed implies !has_key(
                    base,
                    server_session_key(out[i].session),
                ) by {
                    assert(i != k);
                    assert(out[i] == es[i]);
                }
                assert forall|j: int| 0 <= j < base.len() implies has_key(
                    out,
                    server_session_key((#[trigger] base[j]).session),
                ) by {
                    let i = choose|i: int|
                        0 <= i < es.len() && server_session_key((#[trigger] es[i]).session)
                            == server_session_key(base[j].session);
                    if i == k {
                        assert(server_session_key(out[k].session) == server_session_key(s));
                    } else {
                        assert(out[i] == es[i]);
                    }
                }
            },
            None => {
                let n = es.len() as int;
                assert(out[n] == reported_entry(s, true, now_ms));
                assert forall|i: int|
                    0 <= i < out.len() && (#[trigger] out[i]).session.newly_observed implies !has_key(
                    base,
                    server_session_key(out[i].session),
                ) by {
                    if i < n {
                        assert(out[i] == es[i]);
                    } else {
                        lemma_entry_with_key_absent(es, server_session_key(s), 0);
                        if has_key(base, server_session_key(s)) {
                            let j = choose|j: int|
                                0 <= j < base.len() && server_session_key((#[trigger] base[j]).session)
                                    == server_session_key(s);
                            let e = choose|e: int|
                                0 <= e < es.len() && server_session_key((#[trigger] es[e]).session)
                                    == server_session_key(base[j].session);
                            assert(server_session_key(es[e].session) == server_session_key(s));
                        }
                    }
                }
                assert forall|j: int| 0 <= j < base.len() implies has_key(
                    out,
                    server_session_key((#[trigger] base[j]).session),
                ) by {
                    let i = choose|i: int|
                        0 <= i < es.len() && server_session_key((#[trigger] es[i]).session)
                            == server_session_key(base[j].session);
                    assert(out[i] == es[i]);
                }
            },
        }
    }
}

proof fn lemma_record_all_new_keys(
    es: Seq<ObservedSession>,
    reported: Seq<ServerSession>,
    now_ms: u64,
    base: Seq<ObservedSession>,
)
    requires
        new_keys_outside(es, base),
    ensures
        new_keys_outside(record_all(es, reported, now_ms), base),
    decreases reported.len(),
{
    if reported.len() > 0 {
        lemma_record_session_new_keys(es, reported[0], now_ms, base);
        lemma_record_all_new_keys(record_session(es, reported[0], now_ms), reported.skip(1), now_ms, base);
    }
}

/// After a poll, a session is newly observed only when no previous entry
/// that the poll keeps had its key: a known session checking in again is
/// not new.
pub proof fn lemma_known_sessions_are_not_new(
    old: Seq<ObservedSession>,
    reported: Seq<ServerSession>,
    now_ms: u64,
)
    ensures
        forall|i: int, j: int|
            0 <= i < observed_after(old, reported, now_ms).len() && 0 <= j < old.len()
                && (#[trigger] observed_after(old, reported, now_ms)[i]).session.newly_observed
                && keeps_observed((#[trigger] old[j]).session, old[j].last_seen_ms, reported, now_ms)
                ==> server_session_key(old[j].session) != server_session_key(
                observed_after(old, reported, now_ms)[i].session,
            ),
{
    let kept = retained_entries(old, reported, now_ms);
    let out = observed_after(old, reported, now_ms);
    lemma_retained_from(old, reported, now_ms);
    lemma_retained_contains(old, reported, now_ms);
    assert forall|i: int| 0 <= i < kept.len() && (#[trigger] kept[i]).session.newly_observed implies !has_key(
        kept,
        server_session_key(kept[i].session),
    ) by {
        let j = choose|j: int|
            0 <= j < old.len() && kept[i] == quiet_entry(old[j]) && keeps_observed(
                old[j].session,
                old[j].last_seen_ms,
                reported,
                now_ms,
            );
    }
    assert forall|j: int| 0 <= j < kept.len() implies has_key(
        kept,
        server_session_key((#[trigger] kept[j]).session),
    ) by {
        assert(server_session_key(kept[j].session) == server_session_key(kept[j].session));
    }
    lemma_record_all_new_keys(kept, reported, now_ms, kept);
    assert forall|i: int, j: int|
        0 <= i < out.len() && 0 <= j < old.len() && (#[trigger] out[i]).session.newly_observed
            && keeps_observed((#[trigger] old[j]).session, old[j].last_seen_ms, reported, now_ms)
            implies server_session_key(old[j].session) != server_session_key(out[i].session) by {
        assert(has_key(kept, server_session_key(old[j].session)));
    }
}


/// Whether every reported entry has the key of a reported playing session.
pub open spec fn reported_keys_from(es: Seq<ObservedSession>, reported: Seq<ServerSession>) -> bool {
    forall|i: int|
        0 <= i < es.len() && (#[trigger] es[i]).session.reported ==> exists|j: int|
            0 <= j < reported.len() && reported[j].session.now_playing is Some && server_session_key(
                reported[j],
            ) == server_session_key(es[i].session)
}

proof fn lemma_record_all_reported_keys(
    es: Seq<ObservedSession>,
    full: Seq<ServerSession>,
    o: int,
    now_ms: u64,
)
    requires
        0 <= o <= full.len(),
        reported_keys_from(es, full),
    ensures
        reported_keys_from(record_all(es, full.skip(o), now_ms), full),
    decreases full.len() - o,
{
    let rest = full.skip(o);
    if rest.len() > 0 {
        let s = rest[0];
        assert(s == full[o]);
        lemma_entry_with_key_found(es, server_session_key(s), 0);
        let next = record_session(es, s, now_ms);
        assert forall|i: int| 0 <= i < next.len() && (#[trigger] next[i]).session.reported implies exists|j: int|
            0 <= j < full.len() && full[j].session.now_playing is Some && server_session_key(full[j])
                == server_session_key(next[i].session) by {
            if s.session.now_playing is Some {
                match entry_with_key(es, server_session_key(s), 0) {
                    Some(k) => {
                        if i != k {
                            assert(next[i] == es[i]);
                        } else {
                            assert(server_session_key(next[i].session) == server_session_key(full[o]));
                        }
                    },
                    None => {
                        if i < es.len() {
                            assert(next[i] == es[i]);
                        } else {
                            assert(server_session_key(next[i].session) == server_session_key(full[o]));
                        }
                    },
                }
            }
        }
        assert(full.skip(o).skip(1) =~= full.skip(o + 1));
        lemma_record_all_reported_keys(next, full, o + 1, now_ms);
    }
}

/// After a poll, the observed keys are exactly those of the reported
/// sessions that play an item, and those of previous entries that the poll
/// keeps (seen within the retention time, with a reported playing session
/// on the same connection); so a report that plays nothing drops its
/// connection's entries at once.
pub proof fn lemma_observed_keys_exactly(old: Seq<ObservedSession>, reported: Seq<ServerSession>, now_ms: u64)
    ensures
        forall|key: Seq<char>|
            #[trigger] has_key(observed_after(old, reported, now_ms), key) <==> ((exists|j: int|
                0 <= j < reported.len() && reported[j].session.now_playing is Some && server_session_key(
                    reported[j],
                ) == key) || (exists|j: int|
                0 <= j < old.len() && keeps_observed(old[j].session, old[j].last_seen_ms, reported, now_ms)
                    && server_session_key(old[j].session) == key)),
{
    let kept = retained_entries(old, reported, now_ms);
    let out = observed_after(old, reported, now_ms);
    lemma_retained_from(old, reported, now_ms);
    lemma_retained_contains(old, reported, now_ms);
    lemma_reported_sessions_are_observed(old, reported, now_ms);
    lemma_only_shared_rows_are_retained(old, reported, now_ms);
    assert forall|i: int| 0 <= i < kept.len() && (#[trigger] kept[i]).session.newly_observed implies !has_key(
        kept,
        server_session_key(kept[i].session),
    ) by {
        let j = choose|j: int|
            0 <= j < old.len() && kept[i] == quiet_entry(old[j]) && keeps_observed(
                old[j].session,
                old[j].last_seen_ms,
                reported,
                now_ms,
            );
    }
    assert forall|j: int| 0 <= j < kept.len() implies has_key(
        kept,
        server_session_key((#[trigger] kept[j]).session),
    ) by {
        assert(server_session_key(kept[j].session) == server_session_key(kept[j].session));
    }
    lemma_record_all_new_keys(kept, reported, now_ms, kept);
    assert forall|i: int| 0 <= i < kept.len() && (#[trigger] kept[i]).session.reported implies exists|j: int|
        0 <= j < reported.len() && reported[j].session.now_playing is Some && server_session_key(reported[j])
            == server_session_key(kept[i].session) by {
        let j = choose|j: int|
            0 <= j < old.len() && kept[i] == quiet_entry(old[j]) && keeps_observed(
                old[j].session,
                old[j].last_seen_ms,
                reported,
                now_ms,
            );
    }
    assert(reported.skip(0) =~= reported);
    lemma_record_all_reported_keys(kept, reported, 0, now_ms);
    assert forall|key: Seq<char>|
        #[trigger] has_key(out, key) <==> ((exists|j: int|
            0 <= j < reported.len() && reported[j].session.now_playing is Some && server_session_key(reported[j])
                == key) || (exists|j: int|
            0 <= j < old.len() && keeps_observed(old[j].session, old[j].last_seen_ms, reported, now_ms)
                && server_session_key(old[j].session) == key)) by {
        if has_key(out, key) {
            let i = choose|i: int| 0 <= i < out.len() && server_session_key((#[trigger] out[i]).session) == key;
            if !out[i].session.reported {
                let j = choose|j: int|
                    0 <= j < old.len() && out[i] == quiet_entry(old[j]) && keeps_observed(
                        old[j].session,
                        old[j].last_seen_ms,
                        reported,
                        now_ms,
                    );
                assert(server_session_key(quiet_entry(old[j]).session) == server_session_key(old[j].session));
            }
        }
        if exists|j: int|
            0 <= j < reported.len() && reported[j].session.now_playing is Some && server_session_key(reported[j])
                == key {
            let j = choose|j: int|
                0 <= j < reported.len() && reported[j].session.now_playing is Some && server_session_key(
                    reported[j],
                ) == key;
            assert(reported_now(out, server_session_key(reported[j]), now_ms));
        }
        if exists|j: int|
            0 <= j < old.len() && keeps_observed(old[j].session, old[j].last_seen_ms, reported, now_ms)
                && server_session_key(old[j].session) == key {
            let j = choose|j: int|
                0 <= j < old.len() && keeps_observed(old[j].session, old[j].last_seen_ms, reported, now_ms)
                    && server_session_key(old[j].session) == key;
            assert(has_key(kept, key));
            let e = choose|e: int| 0 <= e < kept.len() && server_session_key((#[trigger] kept[e]).session) == key;
            assert(has_key(out, server_session_key(kept[e].session)));
        }
    }
}

/// The sessions observed over recent polls, at most one per key.
pub struct PlaybackSessions {
    observed: Vec<ObservedSession>,
}

impl View for PlaybackSessions {
    type V = Seq<ObservedSession>;

    closed spec fn view(&self) -> Seq<ObservedSession> {
        self.observed@
    }
}

impl PlaybackSessions {
    #[verifier::type_invariant]
    spec fn well_formed(self) -> bool {
        &&& keys_distinct(self.observed@)
        &&& all_playing(self.observed@)
    }

    /// Nothing observed yet.
    pub fn new() -> (r: Self)
        ensures
            r@ == Seq::<ObservedSession>::empty(),
    {
        PlaybackSessions { observed: Vec::new() }
    }

    /// One poll: keeps the previous entries that [`keeps_observed`] allows,
    /// marked as not reported, then records each reported session that
    /// plays an item (see [`observed_after`]); returns the observed
    /// sessions, with remote control turned off where another listed
    /// session shares the connection.
    pub fn update(&mut self, reported: Vec<ServerSession>, now_ms: u64) -> (r: Vec<ServerSession>)
        ensures
            final(self)@ == observed_after(old(self)@, reported@, now_ms),
            r@.len() == final(self)@.len(),
            forall|k: int|
                0 <= k < r@.len() ==> same_server_session(
                    #[trigger] r@[k],
                    listed_session(sessions_of(final(self)@), k),
                ),
    {
        proof {
            use_type_invariant(&*self);
        }
        let mut previous: Vec<ObservedSession> = Vec::new();
        std::mem::swap(&mut previous, &mut self.observed);
        let ghost old_seq = previous@;
        let ghost reported_seq = reported@;
        proof {
            lemma_retained_well_formed(old_seq, reported_seq, now_ms);
        }
        let mut kept: Vec<ObservedSession> = Vec::new();
        while previous.len() > 0
            invariant
                reported@ == reported_seq,
                kept@ + retained_entries(previous@, reported_seq, now_ms) == retained_entries(
                    old_seq,
                    reported_seq,
                    now_ms,
                ),
            decreases previous.len(),
        {
            let ghost before = previous@;
            let e = previous.remove(0);
            assert(previous@ == before.skip(1));
            let ghost kept_before = kept@;
            if keeps_observed_session(&e.session, e.last_seen_ms, &reported, now_ms) {
                let q = ObservedSession {
                    session: ServerSession {
                        kind: e.session.kind,
                        server_id: e.session.server_id,
                        session: e.session.session,
                        reported: false,
                        newly_observed: false,
                    },
                    last_seen_ms: e.last_seen_ms,
                };
                kept.push(q);
                assert(kept@ + retained_entries(previous@, reported_seq, now_ms) == kept_before + (seq![
                    quiet_entry(before[0]),
                ] + retained_entries(previous@, reported_seq, now_ms)));
            }
        }
        assert(kept@ == retained_entries(old_seq, reported_seq, now_ms));
        let mut rest = reported;
        while rest.len() > 0
            invariant
                keys_distinct(kept@),
                all_playing(kept@),
                record_all(kept@, rest@, now_ms) == observed_after(old_seq, reported_seq, now_ms),
            decreases rest.len(),
        {
            let ghost before = rest@;
            let s = rest.remove(0);
            assert(rest@ == before.skip(1));
            record_into(&mut kept, s, now_ms);
        }
        let mut base: Vec<ServerSession> = Vec::new();
        let mut k: usize = 0;
        while k < kept.len()
            invariant
                k <= kept@.len(),
                base@.len() == k,
                forall|i: int| 0 <= i < k ==> same_server_session(#[trigger] base@[i], sessions_of(kept@)[i]),
            decreases kept.len() - k,
        {
            base.push(copy_server_session(&kept[k].session));
            k += 1;
        }
        let mut listed: Vec<ServerSession> = Vec::new();
        let mut k: usize = 0;
        while k < base.len()
            invariant
                k <= base@.len(),
                base@.len() == kept@.len(),
                forall|i: int| 0 <= i < base@.len() ==> same_server_session(#[trigger] base@[i], sessions_of(kept@)[i]),
                listed@.len() == k,
                forall|i: int|
                    0 <= i < k ==> same_server_session(
                        #[trigger] listed@[i],
                        listed_session(sessions_of(kept@), i),
                    ),
            decreases base.len() - k,
        {
            let mut c = copy_server_session(&base[k]);
            let allowed = remote_control_allowed(&base, k);
            proof {
                lemma_unshared_transfer(base@, sessions_of(kept@), k as int);
            }
            if !allowed {
                c.session.supports_remote_control = false;
            }
            listed.push(c);
            k += 1;
        }
        self.observed = kept;
        listed
    }

    /// Forgets every observed session.
    pub fn clear(&mut self)
        ensures
            final(self)@ == Seq::<ObservedSession>::empty(),
    {
        self.observed = Vec::new();
    }
}

/// The text of an optional string.
pub open spec fn opt_string_text(o: Option<String>) -> Option<Seq<char>> {
    match o {
        Some(s) => Some(s@),
        None => None,
    }
}

/// Whether the configured allowlist of the server's kind admits the
/// session's user.
pub open spec fn user_followed(c: Config, kind: MediaServerKind, s: Session) -> bool {
    user_passes(allowed_list(c, kind), opt_string_text(s.user_id), opt_string_text(s.user_name))
}

/// Whether the session plays a theme-song extra.
pub open spec fn plays_ignored_item(s: Session) -> bool {
    match s.now_playing {
        Some(np) => ignored_episode(np),
        None => false,
    }
}

/// Whether a session that a server reports is taken into the poll: its
/// user is followed, it plays no theme-song extra, and it is still visible.
pub open spec fn taken_into_poll(c: Config, kind: MediaServerKind, s: Session, now_ms: int) -> bool {
    &&& user_followed(c, kind, s)
    &&& !plays_ignored_item(s)
    &&& visible_at(kind, s, now_ms as i64)
}

/// A session as reported by the server with the given ID.
pub open spec fn reported_by(kind: MediaServerKind, server_id: u64, s: Session) -> ServerSession {
    ServerSession { kind, server_id, session: s, reported: true, newly_observed: false }
}

/// The sessions of one server's report that are taken into the poll, in
/// the order reported.
pub open spec fn taken_sessions(
    c: Config,
    kind: MediaServerKind,
    server_id: u64,
    ss: Seq<Session>,
    now_ms: int,
) -> Seq<ServerSession>
    decreases ss.len(),
{
    if ss.len() == 0 {
        Seq::empty()
    } else {
        let rest = taken_sessions(c, kind, server_id, ss.skip(1), now_ms);
        if taken_into_poll(c, kind, ss[0], now_ms) {
            seq![reported_by(kind, server_id, ss[0])] + rest
        } else {
            rest
        }
    }
}

/// What one server reported in a poll.
pub struct ServerReport {
    pub kind: MediaServerKind,
    pub server_id: u64,
    pub sessions: Vec<Session>,
}

/// The view of a server report.
pub struct ServerReportView {
    pub kind: MediaServerKind,
    pub server_id: u64,
    pub sessions: Seq<Session>,
}

impl View for ServerReport {
    type V = ServerReportView;

    open spec fn view(&self) -> ServerReportView {
        ServerReportView { kind: self.kind, server_id: self.server_id, sessions: self.sessions@ }
    }
}

/// The sessions of all reports taken into the poll, report by report.
pub open spec fn taken_from_reports(c: Config, rs: Seq<ServerReportView>, now_ms: int) -> Seq<ServerSession>
    decreases rs.len(),
{
    if rs.len() == 0 {
        Seq::empty()
    } else {
        taken_sessions(c, rs[0].kind, rs[0].server_id, rs[0].sessions, now_ms) + taken_from_reports(
            c,
            rs.skip(1),
            now_ms,
        )
    }
}

/// The listed sessions whose user is followed, in order.
pub open spec fn followed_sessions(c: Config, ss: Seq<ServerSession>) -> Seq<ServerSession>
    decreases ss.len(),
{
    if ss.len() == 0 {
        Seq::empty()
    } else {
        let rest = followed_sessions(c, ss.skip(1));
        if user_followed(c, ss[0].kind, ss[0].session) {
            seq![ss[0]] + rest
        } else {
            rest
        }
    }
}

/// The observed sessions as listed: remote control is off where another
/// listed session shares the connection.
pub open spec fn listed_sessions(ss: Seq<ServerSession>) -> Seq<ServerSession> {
    Seq::new(ss.len(), |k: int| listed_session(ss, k))
}

/// Whether two sequences of server sessions hold the same values, one by one.
pub open spec fn same_server_sessions(a: Seq<ServerSession>, b: Seq<ServerSession>) -> bool {
    &&& a.len() == b.len()
    &&& forall|k: int| 0 <= k < a.len() ==> same_server_session(#[trigger] a[k], b[k])
}

/// The text of an optional string, as a borrowed `str`.
fn opt_as_str(o: &Option<String>) -> (r: Option<&str>)
    ensures
        crate::config::opt_text(r) == opt_string_text(*o),
{
    match o {
        Some(s) => Some(s.as_str()),
        None => None,
    }
}

/// Whether the allowlist of the server's kind admits the session's user.
fn is_user_followed(config: &Config, kind: MediaServerKind, session: &Session) -> (r: bool)
    ensures
        r == user_followed(*config, kind, *session),
{
    config.is_user_allowed(kind, opt_as_str(&session.user_id), opt_as_str(&session.user_name))
}

/// The sessions of one server's report that are taken into the poll:
/// those whose user is followed, that play no theme-song extra and that
/// are still visible at `now_ms`.
pub fn reportable_sessions(
    config: &Config,
    kind: MediaServerKind,
    server_id: u64,
    sessions: Vec<Session>,
    now_ms: i64,
) -> (r: Vec<ServerSession>)
    ensures
        r@ == taken_sessions(*config, kind, server_id, sessions@, now_ms as int),
{
    let ghost all = sessions@;
    let mut rest = sessions;
    let mut taken: Vec<ServerSession> = Vec::new();
    while rest.len() > 0
        invariant
            taken@ + taken_sessions(*config, kind, server_id, rest@, now_ms as int) == taken_sessions(
                *config,
                kind,
                server_id,
                all,
                now_ms as int,
            ),
        decreases rest.len(),
    {
        let ghost before = rest@;
        let ghost taken_before = taken@;
        let s = rest.remove(0);
        assert(rest@ == before.skip(1));
        let ignored = match &s.now_playing {
            Some(np) => is_ignored_episode(np),
            None => false,
        };
        if is_user_followed(config, kind, &s) && !ignored && session_is_visible(kind, &s, now_ms) {
            taken.push(ServerSession { kind, server_id, session: s, reported: true, newly_observed: false });
            assert(taken@ + taken_sessions(*config, kind, server_id, rest@, now_ms as int) == taken_before
                + (seq![reported_by(kind, server_id, before[0])] + taken_sessions(
                *config,
                kind,
                server_id,
                rest@,
                now_ms as int,
            )));
        }
    }
    assert(taken@ + Seq::<ServerSession>::empty() == taken@);
    taken
}

/// The listed sessions whose user is followed, in order.
pub fn keep_followed_users(config: &Config, listed: Vec<ServerSession>) -> (r: Vec<ServerSession>)
    ensures
        r@ == followed_sessions(*config, listed@),
{
    let ghost all = listed@;
    let mut rest = listed;
    let mut kept: Vec<ServerSession> = Vec::new();
    while rest.len() > 0
        invariant
            kept@ + followed_sessions(*config, rest@) == followed_sessions(*config, all),
        decreases rest.len(),
    {
        let ghost before = rest@;
        let ghost kept_before = kept@;
        let s = rest.remove(0);
        assert(rest@ == before.skip(1));
        if is_user_followed(config, s.kind, &s.session) {
            kept.push(s);
            assert(kept@ + followed_sessions(*config, rest@) == kept_before + (seq![before[0]]
                + followed_sessions(*config, rest@)));
        }
    }
    assert(kept@ + Seq::<ServerSession>::empty() == kept@);
    kept
}

/// Keeping the followed users maps sessions that hold the same values to
/// sessions that hold the same values.
proof fn lemma_followed_same(c: Config, a: Seq<ServerSession>, b: Seq<ServerSession>)
    requires
        same_server_sessions(a, b),
    ensures
        same_server_sessions(followed_sessions(c, a), followed_sessions(c, b)),
    decreases a.len(),
{
    if a.len() > 0 {
        assert(same_server_session(a[0], b[0]));
        assert(same_server_sessions(a.skip(1), b.skip(1))) by {
            assert forall|k: int| 0 <= k < a.skip(1).len() implies same_server_session(
                #[trigger] a.skip(1)[k],
                b.skip(1)[k],
            ) by {
                assert(a.skip(1)[k] == a[k + 1]);
                assert(b.skip(1)[k] == b[k + 1]);
            }
        }
        lemma_followed_same(c, a.skip(1), b.skip(1));
        let fa = followed_sessions(c, a.skip(1));
        let fb = followed_sessions(c, b.skip(1));
        if user_followed(c, a[0].kind, a[0].session) {
            assert(user_followed(c, b[0].kind, b[0].session));
            let ra = seq![a[0]] + fa;
            let rb = seq![b[0]] + fb;
            assert forall|k: int| 0 <= k < ra.len() implies same_server_session(#[trigger] ra[k], rb[k]) by {
                if k > 0 {
                    assert(ra[k] == fa[k - 1]);
                    assert(rb[k] == fb[k - 1]);
                }
            }
        } else {
            assert(!user_followed(c, b[0].kind, b[0].session));
        }
    }
}

/// One poll of the sessions: the sessions that each server reported are
/// taken in as [`reportable_sessions`] says, report by report; the observed
/// sessions are updated with them (see [`PlaybackSessions::update`]); and
/// of the sessions listed then, those whose user is followed are returned.
pub fn collect_playback_sessions(
    observed: &mut PlaybackSessions,
    config: &Config,
    reports: Vec<ServerReport>,
    now_ms: u64,
) -> (r: Vec<ServerSession>)
    requires
        now_ms <= i64::MAX,
    ensures
        final(observed)@ == observed_after(
            old(observed)@,
            taken_from_reports(*config, reports@.map_values(|x: ServerReport| x@), now_ms as int),
            now_ms,
        ),
        same_server_sessions(
            r@,
            followed_sessions(*config, listed_sessions(sessions_of(final(observed)@))),
        ),
{
    let ghost views = reports@.map_values(|x: ServerReport| x@);
    let mut rest = reports;
    let mut reported: Vec<ServerSession> = Vec::new();
    while rest.len() > 0
        invariant
            now_ms <= i64::MAX,
            reported@ + taken_from_reports(*config, rest@.map_values(|x: ServerReport| x@), now_ms as int)
                == taken_from_reports(*config, views, now_ms as int),
        decreases rest.len(),
    {
        let ghost before = rest@;
        let ghost rb = reported@;
        let report = rest.remove(0);
        assert(rest@ == before.skip(1));
        let ghost bv = before.map_values(|x: ServerReport| x@);
        let ghost rv = rest@.map_values(|x: ServerReport| x@);
        assert(bv.skip(1) == rv);
        assert(bv[0] == report@);
        let mut taken = reportable_sessions(config, report.kind, report.server_id, report.sessions, now_ms as i64);
        let ghost t = taken@;
        reported.append(&mut taken);
        assert(taken_from_reports(*config, bv, now_ms as int) == t + taken_from_reports(*config, rv, now_ms as int));
        assert(reported@ + taken_from_reports(*config, rv, now_ms as int) == rb + (t + taken_from_reports(
            *config,
            rv,
            now_ms as int,
        )));
    }
    assert(reported@ + Seq::<ServerSession>::empty() == reported@);
    let listed = observed.update(reported, now_ms);
    assert(same_server_sessions(listed@, listed_sessions(sessions_of(observed@))));
    proof {
        lemma_followed_same(*config, listed@, listed_sessions(sessions_of(observed@)));
    }
    keep_followed_users(config, listed)
}

} // verus!

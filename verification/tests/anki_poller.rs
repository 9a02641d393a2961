use nagare::anki::{AnkiConnectionState, NoteField, NoteInfo};
use nagare::anki_poller::{anki_poller_step, AnkiPollerAction, AnkiPollerEvent, AnkiPollerState};
use nagare::config::AnkiConfig;
use nagare::enrichment::{
    enrichment_plan, enrichment_step, note_fields, EnrichmentAction, EnrichmentEvent, EnrichmentStage, EnrichmentState,
};

fn cfg() -> AnkiConfig {
    let mut c = AnkiConfig::default();
    c.polling_rate_ms = 1_000;
    c.url = "http://anki:8765".to_string();
    c.skip_if_audio_exists = false;
    c.skip_if_picture_exists = false;
    c
}

fn note(id: i64) -> NoteInfo {
    NoteInfo {
        note_id: id,
        model_name: "Basic".to_string(),
        tags: Vec::new(),
        fields: vec![("Sentence".to_string(), NoteField { value: "文".to_string(), order: 0 })],
    }
}

fn waits(actions: &[AnkiPollerAction]) -> Option<Option<u64>> {
    actions.iter().find_map(|a| match a {
        AnkiPollerAction::Wait(w) => Some(*w),
        _ => None,
    })
}

#[test]
fn pushed_notes_are_offered_once() {
    let c = cfg();
    let mut s = AnkiPollerState::new();
    let first = anki_poller_step(&mut s, &c, AnkiPollerEvent::NoteAdded { note_id: Some(7), note: Some(note(7)), card_ids: Some(vec![70]) });
    assert_eq!(first.len(), 2);
    assert!(matches!(first[0], AnkiPollerAction::SetStatus(AnkiConnectionState::Connected, None)));
    match &first[1] {
        AnkiPollerAction::Offer(n) => {
            assert_eq!(n.event.note_id, 7);
            assert_eq!(n.event.sentence, "文");
            assert_eq!(n.card_ids, Some(vec![70]));
        }
        _ => panic!("expected an offer"),
    }
    let again = anki_poller_step(&mut s, &c, AnkiPollerEvent::NoteAdded { note_id: Some(7), note: None, card_ids: None });
    assert!(again.is_empty());
    assert!(anki_poller_step(&mut s, &c, AnkiPollerEvent::NoteAdded { note_id: None, note: None, card_ids: None }).is_empty());
}

#[test]
fn id_only_pushes_fetch_the_note_then_mark_it_handled() {
    let c = cfg();
    let mut s = AnkiPollerState::new();
    let r = anki_poller_step(&mut s, &c, AnkiPollerEvent::NoteAdded { note_id: Some(9), note: None, card_ids: None });
    assert!(matches!(&r[1], AnkiPollerAction::FetchNotes { ids, push_note: Some(9), .. } if ids == &vec![9]));
    let failed = anki_poller_step(&mut s, &c, AnkiPollerEvent::FetchFailed { push_note: Some(9), error: "down".into() });
    assert!(matches!(&failed[0], AnkiPollerAction::SetStatus(AnkiConnectionState::Disconnected, Some(m))
        if m == "Cannot reach AnkiConnect at http://anki:8765. Card enrichment will stay unavailable until Anki is running. Last error: down"));
    let r = anki_poller_step(&mut s, &c, AnkiPollerEvent::NotesFetched { notes: vec![note(9)], card_ids: None, push_note: Some(9) });
    assert_eq!(r.len(), 1);
    assert!(anki_poller_step(&mut s, &c, AnkiPollerEvent::NoteAdded { note_id: Some(9), note: None, card_ids: None }).is_empty());
}

#[test]
fn polling_is_off_while_the_heartbeat_is_fresh() {
    let c = cfg();
    let mut s = AnkiPollerState::new();
    anki_poller_step(&mut s, &c, AnkiPollerEvent::Heartbeat { now_ms: 1_000, session_id: Some("a".into()), interval_ms: 20_000 });
    let r = anki_poller_step(&mut s, &c, AnkiPollerEvent::Tick { now_ms: 2_000, live: true });
    assert_eq!(r.len(), 1);
    // Stale after max(30 s, 3 × 20 s) = 60 s.
    assert_eq!(waits(&r), Some(Some(59_000)));
    let r = anki_poller_step(&mut s, &c, AnkiPollerEvent::Tick { now_ms: 61_000, live: true });
    assert!(matches!(r[0], AnkiPollerAction::FindNotes));
}

#[test]
fn polling_offers_only_new_recent_notes() {
    let c = cfg();
    let mut s = AnkiPollerState::new();
    let now = 1_700_000_000_000u64;
    assert!(matches!(anki_poller_step(&mut s, &c, AnkiPollerEvent::Tick { now_ms: now, live: true })[0], AnkiPollerAction::FindNotes));
    let r = anki_poller_step(&mut s, &c, AnkiPollerEvent::NotesFound { now_ms: now, ids: vec![1] });
    assert_eq!(r.len(), 2);
    assert_eq!(waits(&r), Some(Some(1_000)));
    // Not yet due.
    assert_eq!(waits(&anki_poller_step(&mut s, &c, AnkiPollerEvent::Tick { now_ms: now + 400, live: true })), Some(Some(600)));
    let fresh = now as i64 - 10_000;
    let r = anki_poller_step(&mut s, &c, AnkiPollerEvent::NotesFound { now_ms: now + 1_000, ids: vec![1, fresh, 5] });
    assert_eq!(r.len(), 3);
    assert!(matches!(&r[1], AnkiPollerAction::FetchNotes { ids, push_note: None, .. } if ids == &vec![fresh]));
}

#[test]
fn failures_back_off_and_report_disconnection_after_five() {
    let c = cfg();
    let mut s = AnkiPollerState::new();
    anki_poller_step(&mut s, &c, AnkiPollerEvent::Tick { now_ms: 0, live: true });
    let mut waited = Vec::new();
    for k in 0..6u64 {
        let r = anki_poller_step(&mut s, &c, AnkiPollerEvent::FindFailed { now_ms: k, error: "refused".into() });
        waited.push(waits(&r).unwrap().unwrap());
        let disconnected = r.iter().any(|a| matches!(a, AnkiPollerAction::SetStatus(AnkiConnectionState::Disconnected, _)));
        assert_eq!(disconnected, k >= 4);
    }
    assert_eq!(waited, vec![1_000, 2_000, 4_000, 5_000, 5_000, 5_000]);
    let r = anki_poller_step(&mut s, &c, AnkiPollerEvent::NotesFound { now_ms: 10, ids: vec![] });
    assert!(matches!(r[0], AnkiPollerAction::SetStatus(AnkiConnectionState::Connected, None)));
}

#[test]
fn without_a_session_polling_waits_and_shows_idle() {
    let c = cfg();
    let mut s = AnkiPollerState::new();
    let r = anki_poller_step(&mut s, &c, AnkiPollerEvent::Tick { now_ms: 5, live: false });
    assert_eq!(r.len(), 2);
    assert!(matches!(&r[0], AnkiPollerAction::SetStatus(AnkiConnectionState::Unknown, Some(m))
        if m == "Waiting for an active playback session before polling AnkiConnect fallback."));
    assert_eq!(waits(&r), Some(None));
    // Shut down once: later idle ticks only wait.
    assert_eq!(anki_poller_step(&mut s, &c, AnkiPollerEvent::Tick { now_ms: 6, live: false }).len(), 1);
    // Grace after a live session: the poll wait is cut to the grace left.
    anki_poller_step(&mut s, &c, AnkiPollerEvent::Tick { now_ms: 1_000, live: true });
    anki_poller_step(&mut s, &c, AnkiPollerEvent::NotesFound { now_ms: 1_000, ids: vec![] });
    let r = anki_poller_step(&mut s, &c, AnkiPollerEvent::Tick { now_ms: 600_500, live: false });
    assert!(matches!(r[0], AnkiPollerAction::FindNotes));
    let r = anki_poller_step(&mut s, &c, AnkiPollerEvent::NotesFound { now_ms: 600_500, ids: vec![] });
    assert_eq!(waits(&r), Some(Some(500)));
}

fn anki_cfg() -> AnkiConfig {
    let mut c = AnkiConfig::default();
    c.fields.source_name = Some("Source".to_string());
    c.add_tags = vec!["nagare".to_string(), "anime".to_string()];
    c
}

#[test]
fn enrichment_plan_names_files_and_fields() {
    let c = anki_cfg();
    let plan = enrichment_plan(&c, "42", 1_000, 4_001, Some("文です"), "Show", true);
    assert_eq!(plan.audio_filename, "nagare_42_1000.opus");
    assert_eq!(plan.avif_filename.as_deref(), Some("nagare_42_1000.avif"));
    assert_eq!(plan.screenshot_ms, 2_500);
    assert_eq!(plan.screenshot_filename, "nagare_42_2500_ss.webp");
    assert_eq!(plan.tags, "nagare anime");
    let fields = note_fields(&plan, Some("nagare_42_1000.avif"));
    assert_eq!(
        fields,
        vec![
            (c.fields.sentence_audio.clone(), "[sound:nagare_42_1000.opus]".to_string()),
            (c.fields.picture.clone(), "<img src=\"nagare_42_1000.avif\">".to_string()),
            (c.fields.sentence.clone(), "文です".to_string()),
            ("Source".to_string(), "Show".to_string()),
        ]
    );
    let mut same = anki_cfg();
    same.fields.picture = same.fields.sentence_audio.clone();
    let plan = enrichment_plan(&same, "42", 0, 0, None, "Show", false);
    assert_eq!(plan.avif_filename, None);
    let fields = note_fields(&plan, Some("p.webp"));
    assert_eq!(fields[0].1, "<img src=\"p.webp\">");
    assert_eq!(fields.len(), 2);
}

#[test]
fn enrichment_runs_audio_then_avif_then_note_then_tags() {
    let mut m = EnrichmentState::new(enrichment_plan(&anki_cfg(), "42", 1_000, 3_000, None, "Show", true));
    assert!(matches!(enrichment_step(&mut m, EnrichmentEvent::Begin), EnrichmentAction::ExtractAudio { start_ms: 1_000, end_ms: 3_000 }));
    assert!(matches!(enrichment_step(&mut m, EnrichmentEvent::Made), EnrichmentAction::StoreMedia { filename } if filename == "nagare_42_1000.opus"));
    assert!(matches!(enrichment_step(&mut m, EnrichmentEvent::Stored), EnrichmentAction::GenerateAvif { .. }));
    assert!(matches!(enrichment_step(&mut m, EnrichmentEvent::Made), EnrichmentAction::StoreMedia { filename } if filename == "nagare_42_1000.avif"));
    match enrichment_step(&mut m, EnrichmentEvent::Stored) {
        EnrichmentAction::UpdateNote { fields } => assert_eq!(fields[1].1, "<img src=\"nagare_42_1000.avif\">"),
        _ => panic!("expected the note update"),
    }
    assert!(matches!(enrichment_step(&mut m, EnrichmentEvent::NoteUpdated), EnrichmentAction::AddTags { tags } if tags == "nagare anime"));
    assert!(matches!(enrichment_step(&mut m, EnrichmentEvent::TagsDone), EnrichmentAction::Finish { error: None }));
    assert_eq!(m.stage, EnrichmentStage::Done);
    assert!(matches!(enrichment_step(&mut m, EnrichmentEvent::Begin), EnrichmentAction::Nothing));
}

#[test]
fn enrichment_failures() {
    let mut m = EnrichmentState::new(enrichment_plan(&anki_cfg(), "42", 1_000, 3_000, None, "Show", true));
    enrichment_step(&mut m, EnrichmentEvent::Begin);
    enrichment_step(&mut m, EnrichmentEvent::Made);
    assert!(matches!(enrichment_step(&mut m, EnrichmentEvent::StoreFailed("busy".into())),
        EnrichmentAction::Finish { error: Some(e) } if e == "Failed to store audio: busy"));

    // No clip: the screenshot of the middle frame is the fallback.
    let mut m = EnrichmentState::new(enrichment_plan(&anki_cfg(), "42", 1_000, 3_000, None, "Show", true));
    enrichment_step(&mut m, EnrichmentEvent::Begin);
    enrichment_step(&mut m, EnrichmentEvent::Made);
    enrichment_step(&mut m, EnrichmentEvent::Stored);
    assert!(matches!(enrichment_step(&mut m, EnrichmentEvent::MakeFailed("no av1".into())), EnrichmentAction::GenerateScreenshot { time_ms: 2_000 }));
    enrichment_step(&mut m, EnrichmentEvent::Made);
    match enrichment_step(&mut m, EnrichmentEvent::StoreFailed("x".into())) {
        EnrichmentAction::UpdateNote { fields } => assert_eq!(fields.len(), 2),
        _ => panic!("expected the note update"),
    }
    assert!(matches!(enrichment_step(&mut m, EnrichmentEvent::NoteUpdateFailed("gone".into())),
        EnrichmentAction::Finish { error: Some(e) } if e == "Failed to update note: gone"));

    let mut m = EnrichmentState::new(enrichment_plan(&AnkiConfig::default(), "1", 0, 10, None, "T", false));
    enrichment_step(&mut m, EnrichmentEvent::Begin);
    assert!(matches!(enrichment_step(&mut m, EnrichmentEvent::MakeFailed("e".into())),
        EnrichmentAction::Finish { error: Some(e) } if e == "Audio extraction failed: e"));
}

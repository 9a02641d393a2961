use nagare::review::{mark_reviewed, record_review_card, session_progress, update_review_card, ReviewCard, ReviewStatus};

#[test]
fn new_cards_start_pending_or_existing() {
    let card = record_review_card(None, 7, false);
    assert_eq!((card.note_id, card.status, card.reviewed_at_ms), (7, ReviewStatus::Pending, None));
    assert_eq!(record_review_card(None, 8, true).status, ReviewStatus::Existing);
}

#[test]
fn repeated_notifications_keep_review_progress() {
    let mut card = record_review_card(None, 7, false);
    update_review_card(&mut card, ReviewStatus::Enhanced, None);
    assert!(mark_reviewed(&mut card, true, 1_000));
    let again = record_review_card(Some(card), 7, false);
    assert_eq!((again.status, again.reviewed_at_ms), (ReviewStatus::Enhanced, Some(1_000)));
}

#[test]
fn queued_cards_cannot_be_marked_until_enhanced() {
    let mut card = record_review_card(None, 7, false);
    assert!(mark_reviewed(&mut card, true, 5));
    update_review_card(&mut card, ReviewStatus::Queued, None);
    assert_eq!(card.reviewed_at_ms, None);
    assert!(!mark_reviewed(&mut card, true, 6));
    update_review_card(&mut card, ReviewStatus::Running, None);
    assert!(!mark_reviewed(&mut card, true, 7));
    update_review_card(&mut card, ReviewStatus::Failed, Some("ffmpeg failed".to_string()));
    assert_eq!(card.last_error.as_deref(), Some("ffmpeg failed"));
    assert!(mark_reviewed(&mut card, true, 8));
    assert_eq!(card.reviewed_at_ms, Some(8));
    update_review_card(&mut card, ReviewStatus::Failed, None);
    assert_eq!(card.reviewed_at_ms, Some(8));
    assert!(mark_reviewed(&mut card, false, 9));
    assert_eq!(card.reviewed_at_ms, None);
}

#[test]
fn session_progress_counts_reviewed_and_enhanced_cards() {
    let mut a = record_review_card(None, 1, false);
    let mut b = record_review_card(None, 2, false);
    let c = record_review_card(None, 3, true);
    update_review_card(&mut a, ReviewStatus::Enhanced, None);
    update_review_card(&mut b, ReviewStatus::Enhanced, None);
    mark_reviewed(&mut b, true, 1);
    let cards: Vec<ReviewCard> = vec![a, b, c];
    assert_eq!(session_progress(&cards), (1, 2));
}

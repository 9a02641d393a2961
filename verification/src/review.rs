//! Review of mined cards: each mined note becomes a review card of the
//! session it was mined in, and its status and review mark follow what
//! happens to it.
use vstd::prelude::*;

verus! {

/// Where a review card stands.
#[derive(Clone, Copy, Debug, PartialEq, Eq, Structural)]
pub enum ReviewStatus {
    /// Mined, not enhanced yet.
    Pending,
    /// Taken from the mining history, enhanced before reviews were kept.
    Existing,
    /// Waiting for its enhancement to run.
    Queued,
    /// Being enhanced.
    Running,
    /// Enhanced.
    Enhanced,
    /// Its enhancement failed.
    Failed,
}

/// A review card: its status, when it was marked reviewed (ms since the
/// epoch), and the error of its last enhancement.
pub struct ReviewCard {
    pub note_id: i64,
    pub status: ReviewStatus,
    pub reviewed_at_ms: Option<i64>,
    pub last_error: Option<String>,
}

/// The card a mined note gets: `Existing` when it comes from the mining
/// history, else `Pending`; never reviewed, no error.
pub open spec fn new_card_is(c: ReviewCard, note_id: i64, from_history: bool) -> bool {
    &&& c.note_id == note_id
    &&& c.status == (if from_history {
        ReviewStatus::Existing
    } else {
        ReviewStatus::Pending
    })
    &&& c.reviewed_at_ms is None
    &&& c.last_error is None
}

/// Records a mined note as a review card. A note that already has a card
/// keeps it as it is: a repeated notification never erases enhancement or
/// review progress.
pub fn record_review_card(existing: Option<ReviewCard>, note_id: i64, from_history: bool) -> (r: ReviewCard)
    ensures
        match existing {
            Some(c) => r == c,
            None => new_card_is(r, note_id, from_history),
        },
{
    match existing {
        Some(c) => c,
        None => ReviewCard {
            note_id,
            status: if from_history {
                ReviewStatus::Existing
            } else {
                ReviewStatus::Pending
            },
            reviewed_at_ms: None,
            last_error: None,
        },
    }
}

/// Whether a status clears the review mark: a card queued again or enhanced
/// again is to be reviewed again.
pub open spec fn clears_review(s: ReviewStatus) -> bool {
    s == ReviewStatus::Queued || s == ReviewStatus::Enhanced
}

/// The card after its status is set: the review mark is cleared when the
/// card is queued or enhanced, and kept otherwise.
pub open spec fn after_update(c: ReviewCard, status: ReviewStatus, error: Option<String>) -> ReviewCard {
    ReviewCard {
        status,
        last_error: error,
        reviewed_at_ms: if clears_review(status) {
            None
        } else {
            c.reviewed_at_ms
        },
        ..c
    }
}

/// Sets a card's status and last error (see [`after_update`]).
pub fn update_review_card(card: &mut ReviewCard, status: ReviewStatus, error: Option<String>)
    ensures
        *final(card) == after_update(*old(card), status, error),
{
    card.status = status;
    card.last_error = error;
    if status == ReviewStatus::Queued || status == ReviewStatus::Enhanced {
        card.reviewed_at_ms = None;
    }
}

/// Whether a card can be marked: not while its enhancement waits or runs.
pub open spec fn can_mark(s: ReviewStatus) -> bool {
    s != ReviewStatus::Queued && s != ReviewStatus::Running
}

/// The card after it is marked reviewed at `now_ms` (or unmarked); a card
/// whose enhancement waits or runs stays as it is.
pub open spec fn after_mark(c: ReviewCard, reviewed: bool, now_ms: i64) -> ReviewCard {
    if can_mark(c.status) {
        ReviewCard {
            reviewed_at_ms: if reviewed {
                Some(now_ms)
            } else {
                None
            },
            ..c
        }
    } else {
        c
    }
}

/// Marks a card reviewed at `now_ms`, or unmarks it (see [`after_mark`]);
/// returns whether the card could be marked.
pub fn mark_reviewed(card: &mut ReviewCard, reviewed: bool, now_ms: i64) -> (r: bool)
    ensures
        r == can_mark(old(card).status),
        *final(card) == after_mark(*old(card), reviewed, now_ms),
{
    if card.status == ReviewStatus::Queued || card.status == ReviewStatus::Running {
        return false;
    }
    card.reviewed_at_ms = if reviewed {
        Some(now_ms)
    } else {
        None
    };
    true
}

/// How many cards of a session are reviewed and how many enhanced.
pub open spec fn progress_upto(cards: Seq<ReviewCard>, n: int) -> (nat, nat)
    decreases n,
{
    if n <= 0 {
        (0, 0)
    } else {
        let (r, e) = progress_upto(cards, n - 1);
        let c = cards[n - 1];
        (
            if c.reviewed_at_ms is Some {
                r + 1
            } else {
                r
            },
            if c.status == ReviewStatus::Enhanced {
                e + 1
            } else {
                e
            },
        )
    }
}

/// The number of reviewed cards and of enhanced cards of a session.
pub fn session_progress(cards: &Vec<ReviewCard>) -> (r: (usize, usize))
    ensures
        (r.0 as nat, r.1 as nat) == progress_upto(cards@, cards@.len() as int),
{
    let mut reviewed: usize = 0;
    let mut enhanced: usize = 0;
    let mut k: usize = 0;
    while k < cards.len()
        invariant
            k <= cards@.len(),
            reviewed <= k,
            enhanced <= k,
            (reviewed as nat, enhanced as nat) == progress_upto(cards@, k as int),
        decreases cards.len() - k,
    {
        if cards[k].reviewed_at_ms.is_some() {
            reviewed += 1;
        }
        if cards[k].status == ReviewStatus::Enhanced {
            enhanced += 1;
        }
        k += 1;
    }
    (reviewed, enhanced)
}

/// A card queued for enhancement again loses its review mark, and marking
/// it changes nothing until its enhancement has run: it is reviewed again
/// only after it is enhanced again.
pub proof fn lemma_requeued_card_is_reviewed_after_enhancement(
    c: ReviewCard,
    error: Option<String>,
    reviewed: bool,
    now_ms: i64,
)
    ensures
        after_mark(after_update(c, ReviewStatus::Queued, error), reviewed, now_ms).reviewed_at_ms is None,
        after_mark(after_update(c, ReviewStatus::Running, error), reviewed, now_ms) == after_update(
            c,
            ReviewStatus::Running,
            error,
        ),
{
}

} // verus!

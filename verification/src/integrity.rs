//! What a library that passes every integrity rule guarantees, stated
//! directly: unique UUID identifiers, references to decks and cards that
//! exist, daily bonuses that fit the limits, and a review history in time
//! order whose schedules chain from one review of a card to the next and end
//! in the card's schedule.
use vstd::prelude::*;
use crate::model::{SnapshotV, ReviewV, Schedule, unlearned, card_pos, deck_pos};
use crate::storage::{
    snapshot_valid, ids_ok, has_deck, card_error, history, review_step, latest_of, bonus_days,
};
use crate::validity::{
    bonus_ok, lemma_cards_error_none, lemma_bonuses_error_none, lemma_history_last_at,
};

verus! {

/// Position of the last of the first `n` reviews that is of card `id`, or -1.
pub open spec fn last_review_of(rs: Seq<ReviewV>, n: int, id: Seq<char>) -> int
    decreases n,
{
    if n <= 0 {
        -1
    } else if rs[n - 1].card_id == id {
        n - 1
    } else {
        last_review_of(rs, n - 1, id)
    }
}

/// The schedule a card has after the first `n` reviews: the schedule after
/// its last review among them, or unlearned when it has none.
pub open spec fn schedule_after_reviews(rs: Seq<ReviewV>, n: int, id: Seq<char>) -> Schedule {
    if last_review_of(rs, n, id) >= 0 {
        rs[last_review_of(rs, n, id)].after
    } else {
        unlearned()
    }
}

/// A replay that succeeded succeeded on every shorter prefix.
proof fn lemma_history_prefix(s: SnapshotV, n: int, k: int)
    requires
        0 <= k <= n <= s.reviews.len(),
        history(s, n) is Ok,
    ensures
        history(s, k) is Ok,
    decreases n - k,
{
    if k < n {
        assert(history(s, n - 1) is Ok);
        lemma_history_prefix(s, n - 1, k);
    }
}

/// The schedule the replay holds for a card is the one after its last review.
proof fn lemma_latest_is_last_review(s: SnapshotV, n: int, id: Seq<char>)
    requires
        0 <= n <= s.reviews.len(),
        history(s, n) is Ok,
    ensures
        latest_of(history(s, n)->Ok_0, id) == schedule_after_reviews(s.reviews, n, id),
    decreases n,
{
    if n > 0 {
        assert(history(s, n - 1) is Ok);
        lemma_latest_is_last_review(s, n - 1, id);
    }
}

/// A replay that succeeded met the reviews in time order.
proof fn lemma_reviews_sorted(s: SnapshotV, n: int)
    requires
        0 <= n <= s.reviews.len(),
        history(s, n) is Ok,
    ensures
        forall|j: int, k: int| 0 <= j < k < n ==> #[trigger] s.reviews[j].at <= #[trigger] s.reviews[k].at,
    decreases n,
{
    if n > 1 {
        assert(history(s, n - 1) is Ok);
        lemma_reviews_sorted(s, n - 1);
        lemma_history_last_at(s, n - 1);
        let h = history(s, n - 1)->Ok_0;
        assert(review_step(s, h, s.reviews[n - 1]) is Ok);
        assert(s.reviews[n - 2].at <= s.reviews[n - 1].at);
        assert forall|j: int, k: int| 0 <= j < k < n implies #[trigger] s.reviews[j].at
            <= #[trigger] s.reviews[k].at by {
            if k == n - 1 && j < n - 2 {
                assert(s.reviews[j].at <= s.reviews[n - 2].at);
            }
        }
    }
}

/// The history of a valid library: the reviews are in time order; each is of a
/// card of the library in the review's deck, with a rating from 1 to 4; the
/// schedule before it is the schedule after the card's previous review
/// (unlearned when there is none); the schedule after it counts one more
/// review, made at the review's time; and every card's schedule is the one
/// after its last review (unlearned when it has none).
#[verifier::spinoff_prover]
#[verifier::rlimit(40)]
pub proof fn law_valid_history(s: SnapshotV)
    requires
        snapshot_valid(s),
    ensures
        forall|j: int, k: int|
            0 <= j < k < s.reviews.len() ==> #[trigger] s.reviews[j].at <= #[trigger] s.reviews[k].at,
        forall|k: int|
            0 <= k < s.reviews.len() ==> {
                let r = #[trigger] s.reviews[k];
                &&& card_pos(s.cards, r.card_id) >= 0
                &&& s.cards[card_pos(s.cards, r.card_id)].deck_id == r.deck_id
                &&& 1 <= r.rating <= 4
                &&& r.before == schedule_after_reviews(s.reviews, k, r.card_id)
                &&& r.after.reps == r.before.reps + 1
                &&& r.after.last_review == Some(r.at)
            },
        forall|c: int|
            0 <= c < s.cards.len() ==> (#[trigger] s.cards[c]).schedule == schedule_after_reviews(
                s.reviews,
                s.reviews.len() as int,
                s.cards[c].id,
            ),
{
    let n = s.reviews.len() as int;
    lemma_reviews_sorted(s, n);
    assert forall|k: int| 0 <= k < n implies {
        let r = #[trigger] s.reviews[k];
        &&& card_pos(s.cards, r.card_id) >= 0
        &&& s.cards[card_pos(s.cards, r.card_id)].deck_id == r.deck_id
        &&& 1 <= r.rating <= 4
        &&& r.before == schedule_after_reviews(s.reviews, k, r.card_id)
        &&& r.after.reps == r.before.reps + 1
        &&& r.after.last_review == Some(r.at)
    } by {
        let r = s.reviews[k];
        lemma_history_prefix(s, n, k + 1);
        assert(history(s, k) is Ok);
        let h = history(s, k)->Ok_0;
        assert(review_step(s, h, r) is Ok);
        lemma_latest_is_last_review(s, k, r.card_id);
    }
    let h = history(s, n)->Ok_0;
    assert forall|c: int| 0 <= c < s.cards.len() implies (#[trigger] s.cards[c]).schedule
        == schedule_after_reviews(s.reviews, n, s.cards[c].id) by {
        lemma_latest_is_last_review(s, n, s.cards[c].id);
        assert(latest_of(h, s.cards[c].id) == s.cards[c].schedule);
    }
}

/// The references of a valid library: its identifiers are UUIDs and all
/// differ; every card and every bonus belongs to a deck of the library; no
/// two bonuses are for the same deck and day; and a deck's limits raised by
/// its bonus still fit in 32 bits.
#[verifier::spinoff_prover]
#[verifier::rlimit(40)]
pub proof fn law_valid_references(s: SnapshotV)
    requires
        snapshot_valid(s),
    ensures
        ids_ok(s),
        forall|c: int| 0 <= c < s.cards.len() ==> has_deck(s, (#[trigger] s.cards[c]).deck_id),
        forall|b: int|
            0 <= b < s.bonuses.len() ==> {
                let x = #[trigger] s.bonuses[b];
                &&& has_deck(s, x.deck_id)
                &&& s.decks[deck_pos(s.decks, x.deck_id)].new_limit + x.new <= u32::MAX
                &&& (s.decks[deck_pos(s.decks, x.deck_id)].review_limit matches Some(l) ==> l + x.review
                    <= u32::MAX)
            },
        forall|i: int, j: int|
            0 <= i < j < s.bonuses.len() ==> (#[trigger] s.bonuses[i]).deck_id != (#[trigger] s.bonuses[j]).deck_id
                || s.bonuses[i].day != s.bonuses[j].day,
{
    lemma_cards_error_none(s, s.cards.len() as int);
    assert forall|c: int| 0 <= c < s.cards.len() implies has_deck(s, (#[trigger] s.cards[c]).deck_id) by {
        assert(card_error(s, s.cards[c]) is None);
    }
    lemma_bonuses_error_none(s, s.bonuses.len() as int);
    assert forall|b: int| 0 <= b < s.bonuses.len() implies {
        let x = #[trigger] s.bonuses[b];
        &&& has_deck(s, x.deck_id)
        &&& s.decks[deck_pos(s.decks, x.deck_id)].new_limit + x.new <= u32::MAX
        &&& (s.decks[deck_pos(s.decks, x.deck_id)].review_limit matches Some(l) ==> l + x.review <= u32::MAX)
    } by {
        assert(bonus_ok(s, b));
    }
    assert forall|i: int, j: int| 0 <= i < j < s.bonuses.len() implies (#[trigger] s.bonuses[i]).deck_id
        != (#[trigger] s.bonuses[j]).deck_id || s.bonuses[i].day != s.bonuses[j].day by {
        assert(bonus_ok(s, j));
        let days = bonus_days(s.bonuses, j);
        assert(days[i] == (s.bonuses[i].deck_id, s.bonuses[i].day));
        assert(days.to_set().contains(days[i]));
    }
}

} // verus!

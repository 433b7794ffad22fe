//! What the library's operations decide, stated for all inputs: which reviews
//! count as successes, which grades are lapses, which training items count
//! as long-interval samples, what a preview calls each change, and in what
//! order the daily queue brings the due cards.
use vstd::prelude::*;
use crate::model::{SnapshotV, CardV, ChangeV, ReviewV, card_pos};
use crate::storage::snapshot_valid;
use crate::analytics::{Analytics, TrainingReview, analytics_ok, samples};
use crate::learning::{graded, NextMemory};
use crate::import::{GroupV, merge_groups, merge_step, preview_of};
use crate::library::lemma_filter_push;

verus! {

/// Filtering by a test that is met exactly when one of two exclusive tests is
/// met keeps as many elements as the two tests keep together.
pub proof fn lemma_filter_split<A>(a: Seq<A>, r: spec_fn(A) -> bool, p: spec_fn(A) -> bool, q: spec_fn(A) -> bool)
    requires
        forall|k: int| 0 <= k < a.len() ==> (r(#[trigger] a[k]) <==> (p(a[k]) || q(a[k]))) && !(p(a[k]) && q(a[k])),
    ensures
        a.filter(r).len() == a.filter(p).len() + a.filter(q).len(),
    decreases a.len(),
{
    if a.len() > 0 {
        let b = a.drop_last();
        assert forall|k: int| 0 <= k < b.len() implies (r(#[trigger] b[k]) <==> (p(b[k]) || q(b[k]))) && !(p(b[k])
            && q(b[k])) by {
            assert(b[k] == a[k]);
        }
        lemma_filter_split(b, r, p, q);
        assert(a =~= b.push(a.last()));
        lemma_filter_push(b, a.last(), r);
        lemma_filter_push(b, a.last(), p);
        lemma_filter_push(b, a.last(), q);
    }
}

/// Every review of a deck is either a success or an "again": the successful
/// reviews of the statistics and the deck's reviews rated 1 ("again") make up
/// all its reviews, so a review rated 2 ("hard"), 3 or 4 counts as a success.
pub proof fn law_successes_are_reviews_above_again(s: SnapshotV, deck: Seq<char>, a: Analytics)
    requires
        snapshot_valid(s),
        analytics_ok(s, deck, a),
    ensures
        a.successful_reviews + s.reviews.filter(|r: ReviewV| r.deck_id == deck && r.rating == 1).len()
            == a.total_reviews,
        a.successful_reviews <= a.total_reviews,
{
    crate::integrity::law_valid_history(s);
    let rv = |r: ReviewV| r.deck_id == deck;
    let ok = |r: ReviewV| r.deck_id == deck && r.rating > 1;
    let again = |r: ReviewV| r.deck_id == deck && r.rating == 1;
    assert forall|k: int| 0 <= k < s.reviews.len() implies (rv(#[trigger] s.reviews[k]) <==> (ok(s.reviews[k])
        || again(s.reviews[k]))) && !(ok(s.reviews[k]) && again(s.reviews[k])) by {
        assert(1 <= s.reviews[k].rating <= 4);
    }
    lemma_filter_split(s.reviews, rv, ok, again);
}

/// Only "again" on a card that was reviewed before is a lapse: a grade adds one
/// review to the card, adds one lapse when the rating is 1 and the card had
/// been reviewed, and otherwise leaves the lapses as they were.
pub proof fn law_only_again_lapses(
    s: SnapshotV,
    id: Seq<char>,
    rating: u32,
    now: i64,
    next: NextMemory,
    fresh: Seq<char>,
)
    requires
        graded(s, id, rating, now, next, fresh) is Ok,
        s.cards[card_pos(s.cards, id)].schedule.reps < u32::MAX,
        s.cards[card_pos(s.cards, id)].schedule.lapses < u32::MAX,
    ensures
        ({
            let t = graded(s, id, rating, now, next, fresh)->Ok_0;
            let b = s.cards[card_pos(s.cards, id)].schedule;
            let x = t.cards[card_pos(s.cards, id)].schedule;
            &&& x.reps == b.reps + 1
            &&& rating != 1 ==> x.lapses == b.lapses
            &&& b.reps == 0 ==> x.lapses == b.lapses
            &&& rating == 1 && b.reps > 0 ==> x.lapses == b.lapses + 1
        }),
{
    let ci = card_pos(s.cards, id);
    let p = crate::learning::plan_of(s, id, rating, now as int);
    assert(p is Ok);
    assert(ci >= 0);
    crate::model::lemma_first_where_found(s.cards, |c: CardV| c.id == id);
}

/// Only training items that end with a review on a later day than the one
/// before count as samples: appending an item that ends with a same-day
/// repetition (or an empty one) leaves the count, and appending one that
/// ends a day or more later adds one.
pub proof fn law_samples_count_long_intervals(items: Seq<Seq<TrainingReview>>, x: Seq<TrainingReview>)
    ensures
        samples(seq![]) == 0,
        x.len() == 0 ==> samples(items.push(x)) == samples(items),
        x.len() > 0 && x.last().delta_t == 0 ==> samples(items.push(x)) == samples(items),
        x.len() > 0 && x.last().delta_t > 0 ==> samples(items.push(x)) == samples(items) + 1,
        samples(items) <= items.len(),
{
    let p = |i: Seq<TrainingReview>| i.len() > 0 && i.last().delta_t > 0;
    lemma_filter_push(items, x, p);
    assert(Seq::<Seq<TrainingReview>>::empty().filter(p) =~= Seq::<Seq<TrainingReview>>::empty()) by {
        reveal(Seq::filter);
    }
    assert(seq![] =~= Seq::<Seq<TrainingReview>>::empty());
    items.lemma_filter_len(p);
}

/// What a preview calls each change: "new" exactly when it adds a card,
/// "unchanged" exactly when the card it writes equals the existing card in
/// every field, and "update" exactly when it rewrites an existing card.
pub proof fn lemma_change_kinds(
    groups: Seq<GroupV>,
    existing: Seq<CardV>,
    by_id: bool,
    deck: Seq<char>,
    now: i64,
    fresh: Seq<Seq<char>>,
    n: int,
)
    ensures
        forall|k: int|
            0 <= k < merge_groups(groups, existing, by_id, deck, now, fresh, n).changes.len() ==> kind_ok(
                #[trigger] merge_groups(groups, existing, by_id, deck, now, fresh, n).changes[k],
            ),
    decreases n,
{
    reveal_strlit("new");
    reveal_strlit("unchanged");
    reveal_strlit("update");
    if n > 0 {
        lemma_change_kinds(groups, existing, by_id, deck, now, fresh, n - 1);
        let acc = merge_groups(groups, existing, by_id, deck, now, fresh, n - 1);
        let mg = merge_groups(groups, existing, by_id, deck, now, fresh, n);
        assert(mg == merge_step(acc, groups[n - 1], existing, by_id, deck, now, fresh));
        assert("new"@ != "unchanged"@) by {
            assert("new"@[0] != "unchanged"@[0]);
        }
        assert("new"@ != "update"@) by {
            assert("new"@[0] != "update"@[0]);
        }
        assert("update"@ != "unchanged"@) by {
            assert("update"@[1] != "unchanged"@[1]);
        }
        assert forall|k: int| 0 <= k < mg.changes.len() implies kind_ok(#[trigger] mg.changes[k]) by {
            if k < acc.changes.len() {
                assert(mg.changes[k] == acc.changes[k]);
            }
        }
    }
}

/// The kind of a change agrees with what it writes.
pub open spec fn kind_ok(c: ChangeV) -> bool {
    &&& c.kind == "new"@ <==> c.before is None
    &&& c.kind == "unchanged"@ <==> c.before == Some(c.after)
    &&& c.kind == "update"@ <==> (c.before is Some && c.before != Some(c.after))
}

/// What a preview calls each change: "new" exactly when it adds a card,
/// "unchanged" exactly when the card it writes equals the existing card in
/// every field (question, answer, explanation, choices and all the rest), and
/// "update" exactly when it rewrites an existing card.
pub proof fn law_change_kinds(
    s: SnapshotV,
    deck: Seq<char>,
    csv: crate::model::ParsedCsvV,
    m: crate::model::MappingV,
    now: i64,
    fresh: Seq<Seq<char>>,
)
    ensures
        forall|k: int|
            0 <= k < preview_of(s, deck, csv, m, now, fresh).changes.len() ==> kind_ok(
                #[trigger] preview_of(s, deck, csv, m, now, fresh).changes[k],
            ),
{
    let cols = crate::import::ascending(m.choices);
    let rows = crate::import::group_rows(csv, m, cols, csv.rows.len() as int);
    lemma_change_kinds(
        rows.groups,
        crate::import::deck_cards(s, deck),
        m.id is Some,
        deck,
        now,
        fresh,
        rows.groups.len() as int,
    );
}

/// The due time a card is ordered by (0 when it has none).
pub open spec fn due_key(c: CardV) -> int {
    match c.schedule.due {
        Some(d) => d as int,
        None => 0,
    }
}

/// The cards are in ascending order of due time.
pub open spec fn due_sorted(d: Seq<CardV>) -> bool {
    forall|i: int, j: int| 0 <= i < j < d.len() ==> due_key(#[trigger] d[i]) <= due_key(#[trigger] d[j])
}

/// Due order holds the same cards, in ascending order of due time.
pub proof fn lemma_due_order_sorted(s: Seq<CardV>)
    ensures
        crate::learning::due_order(s).len() == s.len(),
        forall|i: int| 0 <= i < s.len() ==> s.contains(#[trigger] crate::learning::due_order(s)[i]),
        due_sorted(crate::learning::due_order(s)),
    decreases s.len(),
{
    if s.len() > 0 {
        let b = s.drop_last();
        lemma_due_order_sorted(b);
        let t = crate::learning::due_order(b);
        let x = s.last();
        let r = crate::learning::due_order(s);
        assert(r == crate::learning::insert_due(t, x));
        let p = |y: CardV| crate::learning::due_before(x, y);
        let j = crate::model::first_where(t, p);
        if j < 0 {
            assert forall|k: int| 0 <= k < t.len() implies !p(#[trigger] t[k]) by {
                if p(t[k]) {
                    crate::model::lemma_first_where_some(t, p, k);
                }
            }
            assert(r == t.push(x));
            assert forall|k: int| 0 <= k < t.len() implies due_key(#[trigger] t[k]) <= due_key(x) by {
                assert(!p(t[k]));
            }
            assert forall|i: int| 0 <= i < s.len() implies s.contains(#[trigger] r[i]) by {
                if i < t.len() {
                    assert(r[i] == t[i]);
                    assert(b.contains(t[i]));
                    let w = choose|w: int| 0 <= w < b.len() && b[w] == t[i];
                    assert(s[w] == b[w]);
                } else {
                    assert(r[i] == x);
                    assert(s[s.len() - 1] == x);
                }
            }
            assert forall|i: int, k: int| 0 <= i < k < r.len() implies due_key(#[trigger] r[i]) <= due_key(
                #[trigger] r[k],
            ) by {
                if k < t.len() {
                    assert(r[i] == t[i] && r[k] == t[k]);
                } else {
                    assert(r[i] == t[i]);
                }
            }
        } else {
            crate::model::lemma_first_where_found(t, p);
            assert(r == t.insert(j, x));
            assert forall|k: int| 0 <= k < j implies due_key(#[trigger] t[k]) <= due_key(x) by {
                assert(!p(t[k]));
            }
            assert(due_key(x) <= due_key(t[j]));
            assert forall|i: int| 0 <= i < s.len() implies s.contains(#[trigger] r[i]) by {
                if i == j {
                    assert(r[i] == x);
                    assert(s[s.len() - 1] == x);
                } else {
                    let ti = if i < j { i } else { i - 1 };
                    assert(r[i] == t[ti]);
                    assert(b.contains(t[ti]));
                    let w = choose|w: int| 0 <= w < b.len() && b[w] == t[ti];
                    assert(s[w] == b[w]);
                }
            }
            assert forall|i: int, k: int| 0 <= i < k < r.len() implies due_key(#[trigger] r[i]) <= due_key(
                #[trigger] r[k],
            ) by {
                let ti = if i < j { i } else { i - 1 };
                let tk = if k < j { k } else { k - 1 };
                if i == j {
                    assert(r[k] == t[tk]);
                    assert(due_key(t[j]) <= due_key(t[tk]) || tk == j);
                } else if k == j {
                    assert(r[i] == t[ti]);
                } else {
                    assert(r[i] == t[ti] && r[k] == t[tk]);
                    if i < j && k > j {
                        assert(due_key(t[ti]) <= due_key(x));
                        assert(due_key(x) <= due_key(t[j]));
                        assert(due_key(t[j]) <= due_key(t[tk]) || tk == j);
                    }
                }
            }
        }
    }
}

/// Where in the due cards the `i`-th card the queue picks stands.
pub open spec fn picked_at(d: Seq<CardV>, seen: Seq<(Seq<char>, bool)>, allowance: int, i: int) -> int
    decreases d.len(),
{
    if d.len() == 0 {
        0
    } else if crate::learning::seen_contains(seen, d[0].id) {
        if i == 0 {
            0
        } else {
            1 + picked_at(d.drop_first(), seen, allowance, i - 1)
        }
    } else if allowance > 0 {
        if i == 0 {
            0
        } else {
            1 + picked_at(d.drop_first(), seen, allowance - 1, i - 1)
        }
    } else {
        1 + picked_at(d.drop_first(), seen, allowance, i)
    }
}

/// The queue picks due cards in their order: the `i`-th picked identifier is
/// that of the card at `picked_at(.., i)`, and those positions increase.
pub proof fn lemma_pick_due_in_order(d: Seq<CardV>, seen: Seq<(Seq<char>, bool)>, allowance: int)
    ensures
        crate::learning::pick_due(d, seen, allowance).len() <= d.len(),
        forall|i: int|
            0 <= i < crate::learning::pick_due(d, seen, allowance).len() ==> 0 <= #[trigger] picked_at(
                d,
                seen,
                allowance,
                i,
            ) < d.len() && crate::learning::pick_due(d, seen, allowance)[i] == d[picked_at(d, seen, allowance, i)].id,
        forall|i: int, j: int|
            0 <= i < j < crate::learning::pick_due(d, seen, allowance).len() ==> #[trigger] picked_at(
                d,
                seen,
                allowance,
                i,
            ) < #[trigger] picked_at(d, seen, allowance, j),
    decreases d.len(),
{
    if d.len() > 0 {
        let tail = d.drop_first();
        let pick = crate::learning::pick_due(d, seen, allowance);
        let took = crate::learning::seen_contains(seen, d[0].id) || allowance > 0;
        let a2 = if crate::learning::seen_contains(seen, d[0].id) {
            allowance
        } else if allowance > 0 {
            allowance - 1
        } else {
            allowance
        };
        lemma_pick_due_in_order(tail, seen, a2);
        let rest = crate::learning::pick_due(tail, seen, a2);
        if took {
            assert(pick == seq![d[0].id] + rest);
            assert forall|i: int| 0 <= i < pick.len() implies 0 <= #[trigger] picked_at(d, seen, allowance, i) < d.len()
                && pick[i] == d[picked_at(d, seen, allowance, i)].id by {
                if i > 0 {
                    assert(pick[i] == rest[i - 1]);
                    assert(picked_at(d, seen, allowance, i) == 1 + picked_at(tail, seen, a2, i - 1));
                    assert(tail[picked_at(tail, seen, a2, i - 1)] == d[1 + picked_at(tail, seen, a2, i - 1)]);
                }
            }
            assert forall|i: int, j: int| 0 <= i < j < pick.len() implies #[trigger] picked_at(d, seen, allowance, i)
                < #[trigger] picked_at(d, seen, allowance, j) by {
                assert(picked_at(d, seen, allowance, j) == 1 + picked_at(tail, seen, a2, j - 1));
                if i > 0 {
                    assert(picked_at(d, seen, allowance, i) == 1 + picked_at(tail, seen, a2, i - 1));
                }
            }
        } else {
            assert(pick == rest);
            assert forall|i: int| 0 <= i < pick.len() implies 0 <= #[trigger] picked_at(d, seen, allowance, i) < d.len()
                && pick[i] == d[picked_at(d, seen, allowance, i)].id by {
                assert(picked_at(d, seen, allowance, i) == 1 + picked_at(tail, seen, a2, i));
                assert(tail[picked_at(tail, seen, a2, i)] == d[1 + picked_at(tail, seen, a2, i)]);
            }
            assert forall|i: int, j: int| 0 <= i < j < pick.len() implies #[trigger] picked_at(d, seen, allowance, i)
                < #[trigger] picked_at(d, seen, allowance, j) by {
                assert(picked_at(d, seen, allowance, i) == 1 + picked_at(tail, seen, a2, i));
                assert(picked_at(d, seen, allowance, j) == 1 + picked_at(tail, seen, a2, j));
            }
        }
    }
}

/// The card of the library with the identifier.
pub open spec fn card_of(s: SnapshotV, id: Seq<char>) -> CardV {
    s.cards[card_pos(s.cards, id)]
}

/// The identifier is that of a card of the library that was reviewed.
pub open spec fn learned(s: SnapshotV, id: Seq<char>) -> bool {
    card_pos(s.cards, id) >= 0 && card_of(s, id).schedule.reps > 0
}

/// In a library whose card identifiers differ, a card of the library is the
/// card found under its identifier.
proof fn lemma_card_of_member(s: SnapshotV, c: CardV)
    requires
        forall|i: int, j: int|
            0 <= i < s.cards.len() && 0 <= j < s.cards.len() && i != j ==> #[trigger] s.cards[i].id
                != #[trigger] s.cards[j].id,
        s.cards.contains(c),
    ensures
        card_pos(s.cards, c.id) >= 0,
        card_of(s, c.id) == c,
{
    let w = choose|w: int| 0 <= w < s.cards.len() && s.cards[w] == c;
    crate::model::lemma_first_where_some(s.cards, |x: CardV| x.id == c.id, w);
    crate::model::lemma_first_where_found(s.cards, |x: CardV| x.id == c.id);
}

/// The daily queue brings the due cards most overdue first: of two reviewed
/// cards in the queue, the one that comes first is due no later than the
/// other. (New cards follow the due ones; they were never reviewed.)
#[verifier::spinoff_prover]
#[verifier::rlimit(60)]
pub proof fn law_queue_due_order(s: SnapshotV, deck: Seq<char>, now: int)
    requires
        snapshot_valid(s),
        crate::learning::queue_of(s, deck, now) is Ok,
    ensures
        forall|i: int, j: int|
            0 <= i < j < crate::learning::queue_of(s, deck, now)->Ok_0.card_ids.len() && learned(
                s,
                #[trigger] crate::learning::queue_of(s, deck, now)->Ok_0.card_ids[i],
            ) && learned(s, #[trigger] crate::learning::queue_of(s, deck, now)->Ok_0.card_ids[j]) ==> due_key(
                card_of(s, crate::learning::queue_of(s, deck, now)->Ok_0.card_ids[i]),
            ) <= due_key(card_of(s, crate::learning::queue_of(s, deck, now)->Ok_0.card_ids[j])),
{
    let q = crate::learning::queue_of(s, deck, now)->Ok_0;
    let di = crate::model::deck_pos(s.decks, deck);
    let config = s.decks[di];
    let day = crate::learning::today(s, now)->0;
    let bi = crate::learning::bonus_pos(s, deck, day);
    let new_bonus: u32 = if bi >= 0 { s.bonuses[bi].new } else { 0 };
    let review_bonus: u32 = if bi >= 0 { s.bonuses[bi].review } else { 0 };
    let seen = crate::learning::seen_of(s, deck, day)->0;
    let new_limit = config.new_limit + new_bonus;
    let review_limit: Option<u32> = match config.review_limit {
        Some(n) => Some((n + review_bonus) as u32),
        None => None,
    };
    let new_used = seen.filter(|e: (Seq<char>, bool)| e.1).len();
    let review_used = seen.len() - new_used;
    let new_available = if new_used < new_limit { new_limit - new_used } else { 0 };
    let review_cap: int = match review_limit {
        Some(n) => n as int,
        None => u32::MAX as int,
    };
    let review_available = if review_used < review_cap { review_cap - review_used } else { 0 };
    let cards = crate::import::deck_cards(s, deck);
    let fresh = crate::learning::unlearned_cards(cards);
    let due = crate::learning::due_cards(cards, now);
    let d = crate::learning::due_order(due);
    let picked = crate::learning::pick_due(d, seen, review_available);
    let added = fresh.take(crate::learning::min(new_available, fresh.len() as int)).map_values(|c: CardV| c.id);
    assert(q.card_ids == picked + added);
    crate::validity::lemma_ids_distinct(s);
    lemma_due_order_sorted(due);
    lemma_pick_due_in_order(d, seen, review_available);
    let pd = |c: CardV| c.deck_id == deck;
    let pdue = |c: CardV| c.schedule.reps > 0 && c.schedule.due is Some && c.schedule.due->0 <= now;
    let pnew = |c: CardV| c.schedule.reps == 0;
    assert forall|k: int| 0 <= k < picked.len() implies card_of(s, #[trigger] q.card_ids[k]) == d[picked_at(
        d,
        seen,
        review_available,
        k,
    )] by {
        let x = d[picked_at(d, seen, review_available, k)];
        assert(q.card_ids[k] == picked[k]);
        assert(due.contains(x));
        let e = choose|e: int| 0 <= e < due.len() && due[e] == x;
        crate::import::lemma_filter_subset(cards, pdue, e);
        let f = choose|f: int| 0 <= f < cards.len() && cards[f] == x;
        crate::import::lemma_filter_subset(s.cards, pd, f);
        lemma_card_of_member(s, x);
    }
    assert forall|k: int| picked.len() <= k < q.card_ids.len() implies !learned(s, #[trigger] q.card_ids[k]) by {
        let m = k - picked.len();
        assert(q.card_ids[k] == added[m]);
        let x = fresh[m];
        assert(added[m] == x.id);
        cards.lemma_filter_pred(pnew, m);
        crate::import::lemma_filter_subset(cards, pnew, m);
        let f = choose|f: int| 0 <= f < cards.len() && cards[f] == x;
        crate::import::lemma_filter_subset(s.cards, pd, f);
        lemma_card_of_member(s, x);
    }
}

} // verus!

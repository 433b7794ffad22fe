//! Changes that keep a valid library valid: a library that passes every
//! integrity rule still passes them after its settings or a deck's study
//! settings change, after a deck is added or deleted, after a grade, a raised
//! daily limit or the undoing of the last grade, after a card is edited and
//! after trained parameters are adopted; so each of these changes can be saved.
use vstd::prelude::*;
use crate::model::{
    SnapshotV, SettingsV, DeckV, CardV, ReviewV, BonusV, first_where, binary32_finite, binary32_positive,
    binary32_one_to_ten, card_pos, lemma_first_where_at, lemma_first_where_found, lemma_first_where_some,
};
use crate::storage::{
    snapshot_valid, ids_ok, all_ids, decks_error, deck_error, cards_error, card_error, has_deck, history,
    review_step, bonuses_error, bonus_error, bonus_days, latest_of, cards_match_history, timestamp_ok,
    parameters_ok, History,
};
use crate::clock::{day_settings_valid, study_day_text, spec_date_valid};
use crate::learning::{
    configured, undone, graded, bonus_added, bonus_pos, plan_of, today, schedule_after, interval_seconds, NextMemory,
};
use crate::library::{new_deck, bumped, default_parameters, without_deck, deck_added};
use crate::text::{trim, trim_start, trim_end, is_ws, blank};
use crate::ids::spec_uuid_text;
use crate::model::ChoiceV;
use crate::learning::{kept_choices, settings_changed, edited};
use crate::analytics::parameters_applied;

verus! {

/// Two sequences whose elements satisfy the two predicates at the same
/// positions have the same first such position.
pub proof fn lemma_first_where_agree<A, B>(a: Seq<A>, b: Seq<B>, pa: spec_fn(A) -> bool, pb: spec_fn(B) -> bool)
    requires
        a.len() == b.len(),
        forall|k: int| 0 <= k < a.len() ==> pa(a[k]) == pb(b[k]),
    ensures
        first_where(a, pa) == first_where(b, pb),
{
    if first_where(a, pa) >= 0 {
        lemma_first_where_found(a, pa);
        let j = first_where(a, pa);
        assert forall|k: int| 0 <= k < j implies !pb(b[k]) by {
            assert(!pa(a[k]));
        }
        lemma_first_where_at(b, pb, j);
    } else if first_where(b, pb) >= 0 {
        lemma_first_where_found(b, pb);
        let j = first_where(b, pb);
        assert(pa(a[j]));
        lemma_first_where_some(a, pa, j);
    }
}

/// The decks carry the same identifiers at the same positions.
pub open spec fn same_deck_ids(s: SnapshotV, t: SnapshotV) -> bool {
    &&& s.decks.len() == t.decks.len()
    &&& forall|k: int| 0 <= k < s.decks.len() ==> #[trigger] s.decks[k].id == t.decks[k].id
}

/// The cards carry the same identifiers and decks at the same positions.
pub open spec fn same_card_keys(s: SnapshotV, t: SnapshotV) -> bool {
    &&& s.cards.len() == t.cards.len()
    &&& forall|k: int| 0 <= k < s.cards.len() ==> #[trigger] s.cards[k].id == t.cards[k].id && s.cards[k].deck_id
        == t.cards[k].deck_id
}

pub proof fn lemma_has_deck_agree(s: SnapshotV, t: SnapshotV, id: Seq<char>)
    requires
        same_deck_ids(s, t),
    ensures
        has_deck(s, id) == has_deck(t, id),
{
    if has_deck(s, id) {
        let i = choose|i: int| 0 <= i < s.decks.len() && s.decks[i].id == id;
        assert(t.decks[i].id == id);
    }
    if has_deck(t, id) {
        let i = choose|i: int| 0 <= i < t.decks.len() && t.decks[i].id == id;
        assert(s.decks[i].id == id);
    }
}

pub proof fn lemma_deck_pos_agree(s: SnapshotV, t: SnapshotV, id: Seq<char>)
    requires
        same_deck_ids(s, t),
    ensures
        crate::model::deck_pos(s.decks, id) == crate::model::deck_pos(t.decks, id),
{
    lemma_first_where_agree(s.decks, t.decks, |d: DeckV| d.id == id, |d: DeckV| d.id == id);
}

pub proof fn lemma_card_pos_agree(s: SnapshotV, t: SnapshotV, id: Seq<char>)
    requires
        same_card_keys(s, t),
    ensures
        crate::model::card_pos(s.cards, id) == crate::model::card_pos(t.cards, id),
{
    lemma_first_where_agree(s.cards, t.cards, |c: CardV| c.id == id, |c: CardV| c.id == id);
}

/// The card rules give the same verdicts when the deck identifiers and the
/// cards agree.
proof fn lemma_cards_error_agree(s: SnapshotV, t: SnapshotV, n: int)
    requires
        same_deck_ids(s, t),
        s.cards == t.cards,
    ensures
        cards_error(s, n) == cards_error(t, n),
    decreases n,
{
    if n > 0 {
        lemma_cards_error_agree(s, t, n - 1);
        lemma_has_deck_agree(s, t, s.cards[n - 1].deck_id);
    }
}

/// Replaying the first `n` reviews gives the same history when the cards
/// carry the same keys and those reviews agree.
proof fn lemma_history_agree(s: SnapshotV, t: SnapshotV, n: int)
    requires
        same_card_keys(s, t),
        0 <= n <= s.reviews.len(),
        n <= t.reviews.len(),
        forall|k: int| 0 <= k < n ==> s.reviews[k] == t.reviews[k],
    ensures
        history(s, n) == history(t, n),
    decreases n,
{
    if n > 0 {
        lemma_history_agree(s, t, n - 1);
        lemma_card_pos_agree(s, t, s.reviews[n - 1].card_id);
        match history(s, n - 1) {
            Err(_) => {},
            Ok(h) => {
                assert(review_step(s, h, s.reviews[n - 1]) == review_step(t, h, t.reviews[n - 1]));
            },
        }
    }
}

/// The bonus rules give the same verdicts when decks and bonuses agree.
proof fn lemma_bonuses_error_agree(s: SnapshotV, t: SnapshotV, n: int)
    requires
        s.decks == t.decks,
        s.bonuses == t.bonuses,
    ensures
        bonuses_error(s, n) == bonuses_error(t, n),
    decreases n,
{
    if n > 0 {
        lemma_bonuses_error_agree(s, t, n - 1);
        lemma_has_deck_agree(s, t, s.bonuses[n - 1].deck_id);
    }
}

/// A change of the settings to settings under which study days can be
/// computed keeps a valid library valid.
pub proof fn law_settings_keep_validity(s: SnapshotV, settings: SettingsV)
    requires
        snapshot_valid(s),
        s.revision < i64::MAX,
        day_settings_valid(settings.timezone, settings.day_start_hour as int),
        study_day_text(0, settings.timezone, settings.day_start_hour as int) is Some,
    ensures
        snapshot_valid(settings_changed(s, settings)),
{
    let t = SnapshotV { revision: (s.revision + 1) as u64, settings, ..s };
    assert(all_ids(t) == all_ids(s));
    lemma_cards_error_agree(s, t, s.cards.len() as int);
    lemma_history_agree(s, t, s.reviews.len() as int);
    lemma_bonuses_error_agree(s, t, s.bonuses.len() as int);
}

pub proof fn lemma_decks_error_none(ds: Seq<DeckV>, n: int)
    requires
        0 <= n <= ds.len(),
    ensures
        decks_error(ds, n) is None <==> forall|k: int| 0 <= k < n ==> (#[trigger] deck_error(ds[k])) is None,
    decreases n,
{
    if n > 0 {
        lemma_decks_error_none(ds, n - 1);
    }
}

pub proof fn lemma_cards_error_none(s: SnapshotV, n: int)
    requires
        0 <= n <= s.cards.len(),
    ensures
        cards_error(s, n) is None <==> forall|k: int| 0 <= k < n ==> (#[trigger] card_error(s, s.cards[k])) is None,
    decreases n,
{
    if n > 0 {
        lemma_cards_error_none(s, n - 1);
    }
}

/// The bonus at position `k` passes its rule.
pub open spec fn bonus_ok(s: SnapshotV, k: int) -> bool {
    bonus_error(s, bonus_days(s.bonuses, k).to_set(), s.bonuses[k]) is None
}

#[verifier::spinoff_prover]
pub proof fn lemma_bonuses_error_none(s: SnapshotV, n: int)
    requires
        0 <= n <= s.bonuses.len(),
    ensures
        bonuses_error(s, n) is None <==> forall|k: int| 0 <= k < n ==> #[trigger] bonus_ok(s, k),
    decreases n,
{
    if n > 0 {
        lemma_bonuses_error_none(s, n - 1);
        assert(bonuses_error(s, n) is None <==> (bonuses_error(s, n - 1) is None && bonus_ok(s, n - 1)));
    }
}

/// A change of a deck's target retention and daily limits that `configure_deck`
/// accepts keeps a valid library valid.
pub proof fn law_deck_settings_keep_validity(
    s: SnapshotV,
    id: Seq<char>,
    retention: u32,
    new_limit: u32,
    review_limit: Option<u32>,
)
    requires
        snapshot_valid(s),
        s.revision < i64::MAX,
        configured(s, id, retention, new_limit, review_limit) is Ok,
    ensures
        snapshot_valid(configured(s, id, retention, new_limit, review_limit)->Ok_0),
{
    let t = configured(s, id, retention, new_limit, review_limit)->Ok_0;
    let di = crate::model::deck_pos(s.decks, id);
    lemma_first_where_found(s.decks, |d: DeckV| d.id == id);
    assert(same_deck_ids(s, t));
    assert(t.decks.map_values(|d: DeckV| d.id) =~= s.decks.map_values(|d: DeckV| d.id));
    assert(all_ids(t) == all_ids(s));
    lemma_decks_error_none(s.decks, s.decks.len() as int);
    lemma_decks_error_none(t.decks, t.decks.len() as int);
    assert forall|k: int| 0 <= k < t.decks.len() implies (#[trigger] deck_error(t.decks[k])) is None by {
        assert(deck_error(s.decks[k]) is None);
    }
    lemma_cards_error_agree(s, t, s.cards.len() as int);
    lemma_history_agree(s, t, s.reviews.len() as int);
    lemma_bonuses_error_none(s, s.bonuses.len() as int);
    lemma_bonuses_error_none(t, t.bonuses.len() as int);
    assert forall|k: int| 0 <= k < t.bonuses.len() implies #[trigger] bonus_ok(t, k) by {
        let b = s.bonuses[k];
        let days = bonus_days(s.bonuses, k).to_set();
        assert(bonus_ok(s, k));
        assert(bonus_error(s, days, b) is None);
        lemma_has_deck_agree(s, t, b.deck_id);
        lemma_deck_pos_agree(s, t, b.deck_id);
        let pos = crate::model::deck_pos(s.decks, b.deck_id);
        let w = choose|i: int| 0 <= i < s.decks.len() && s.decks[i].id == b.deck_id;
        lemma_first_where_some(s.decks, |d: DeckV| d.id == b.deck_id, w);
        lemma_first_where_found(s.decks, |d: DeckV| d.id == b.deck_id);
        if pos == di {
            assert(s.decks[pos].id == b.deck_id);
            assert(b.deck_id == id);
            assert(!(new_limit + b.new > u32::MAX || (review_limit matches Some(n) && n + b.review > u32::MAX)));
        }
    }
}

/// Undoing the last grade keeps a valid library valid: the card returns to
/// the schedule its history held before that grade.
#[verifier::spinoff_prover]
#[verifier::rlimit(50)]
pub proof fn law_undo_keeps_validity(s: SnapshotV)
    requires
        snapshot_valid(s),
        s.revision < i64::MAX,
        undone(s) is Ok,
    ensures
        snapshot_valid(undone(s)->Ok_0),
{
    let u = undone(s)->Ok_0;
    let n = s.reviews.len() as int;
    let r = s.reviews[n - 1];
    let ci = crate::model::card_pos(s.cards, r.card_id);
    lemma_first_where_found(s.cards, |c: CardV| c.id == r.card_id);
    // the identifiers: those of the library without the last review's
    let ds = s.decks.map_values(|d: DeckV| d.id);
    let cs = s.cards.map_values(|c: CardV| c.id);
    let rs = s.reviews.map_values(|v: ReviewV| v.id);
    let bs = s.bonuses.map_values(|b: BonusV| b.id);
    assert(u.cards.map_values(|c: CardV| c.id) =~= cs);
    assert(u.reviews.map_values(|v: ReviewV| v.id) =~= rs.drop_last());
    let a = all_ids(s);
    let b = all_ids(u);
    assert(a =~= ds + cs + rs + bs);
    assert(b =~= ds + cs + rs.drop_last() + bs);
    let m = ds.len() + cs.len() + rs.len() - 1;
    assert forall|i: int| 0 <= i < b.len() implies #[trigger] b[i] == a[if i < m { i } else { i + 1 }] by {
        if i < ds.len() + cs.len() {
        } else if i < m {
        } else {
        }
    }
    assert forall|i: int| 0 <= i < b.len() implies crate::ids::spec_uuid_text(#[trigger] b[i]) by {
        assert(b[i] == a[if i < m { i } else { i + 1 }]);
    }
    assert forall|i: int, j: int| 0 <= i < b.len() && 0 <= j < b.len() && i != j implies b[i] != b[j] by {
        assert(b[i] == a[if i < m { i } else { i + 1 }]);
        assert(b[j] == a[if j < m { j } else { j + 1 }]);
    }
    assert(ids_ok(u));
    // the history before the last review
    let h = history(s, n - 1)->Ok_0;
    assert(history(s, n) == review_step(s, h, r));
    assert(same_card_keys(s, u));
    lemma_history_agree(s, u, n - 1);
    assert(u.reviews.len() == n - 1);
    // the cards
    assert(same_deck_ids(s, u));
    lemma_cards_error_none(s, s.cards.len() as int);
    lemma_cards_error_none(u, u.cards.len() as int);
    assert forall|k: int| 0 <= k < u.cards.len() implies (#[trigger] card_error(u, u.cards[k])) is None by {
        assert(card_error(s, s.cards[k]) is None);
        lemma_has_deck_agree(s, u, s.cards[k].deck_id);
    }
    // every card holds the schedule the shorter history gives it
    let h2 = history(s, n)->Ok_0;
    assert forall|k: int| 0 <= k < u.cards.len() implies latest_of(h, #[trigger] u.cards[k].id) == u.cards[k].schedule by {
        assert(latest_of(h2, s.cards[k].id) == s.cards[k].schedule);
        if k != ci {
            assert(a[ds.len() + k] == s.cards[k].id);
            assert(a[ds.len() + ci] == s.cards[ci].id);
            assert(s.cards[k].id != r.card_id);
        }
    }
    assert(cards_match_history(u, h));
    lemma_bonuses_error_agree(s, u, s.bonuses.len() as int);
}

proof fn lemma_trim_start_shape(s: Seq<char>)
    ensures
        trim_start(s).len() <= s.len(),
        trim_start(s).len() == 0 || !is_ws(trim_start(s)[0]),
    decreases s.len(),
{
    if s.len() > 0 && is_ws(s[0]) {
        lemma_trim_start_shape(s.drop_first());
    }
}

proof fn lemma_trim_end_shape(s: Seq<char>)
    ensures
        trim_end(s).len() <= s.len(),
        trim_end(s) == s.take(trim_end(s).len() as int),
        trim_end(s).len() == 0 || !is_ws(trim_end(s).last()),
    decreases s.len(),
{
    if s.len() > 0 && is_ws(s.last()) {
        lemma_trim_end_shape(s.drop_last());
        let t = trim_end(s.drop_last());
        assert(t =~= s.take(t.len() as int));
    } else {
        assert(s =~= s.take(s.len() as int));
    }
}

/// Trimming twice trims nothing more, and never lengthens.
proof fn lemma_trim_twice(s: Seq<char>)
    ensures
        trim(trim(s)) == trim(s),
        trim(s).len() <= s.len(),
{
    let y = trim_start(s);
    lemma_trim_start_shape(s);
    lemma_trim_end_shape(y);
    let z = trim_end(y);
    if z.len() > 0 {
        assert(z[0] == y[0]);
    }
    assert(trim_start(z) == z);
    lemma_trim_end_shape(z);
    assert(trim_end(z) == z);
}

/// The deck identifiers of `ds.push(x)` before position `n` pass the same
/// rules as those of `ds`.
proof fn lemma_decks_error_push(ds: Seq<DeckV>, x: DeckV, n: int)
    requires
        0 <= n <= ds.len(),
    ensures
        decks_error(ds.push(x), n) == decks_error(ds, n),
    decreases n,
{
    if n > 0 {
        lemma_decks_error_push(ds, x, n - 1);
        assert(ds.push(x)[n - 1] == ds[n - 1]);
    }
}

/// Adding a deck, under an identifier the library does not use yet and with
/// a creation time in range, keeps a valid library valid.
#[verifier::spinoff_prover]
#[verifier::rlimit(50)]
pub proof fn law_new_deck_keeps_validity(s: SnapshotV, id: Seq<char>, name: Seq<char>, now: i64)
    requires
        snapshot_valid(s),
        s.revision < i64::MAX,
        spec_uuid_text(id),
        !all_ids(s).contains(id),
        !(blank(name) || name.len() > 200),
        timestamp_ok(now),
    ensures
        snapshot_valid(deck_added(s, id, name, now)),
{
    let d = new_deck(id, name, now);
    let t = SnapshotV { decks: s.decks.push(d), ..bumped(s) };
    // identifiers
    let ds = s.decks.map_values(|x: DeckV| x.id);
    let rest = s.cards.map_values(|c: CardV| c.id) + s.reviews.map_values(|v: ReviewV| v.id) + s.bonuses.map_values(
        |b: BonusV| b.id,
    );
    assert(t.decks.map_values(|x: DeckV| x.id) =~= ds.push(id));
    let a = all_ids(s);
    let b = all_ids(t);
    assert(a =~= ds + rest);
    assert(b =~= ds.push(id) + rest);
    let m = ds.len() as int;
    assert forall|i: int| 0 <= i < b.len() && i != m implies #[trigger] b[i] == a[if i < m { i } else { i - 1 }] by {
    }
    assert(b[m] == id);
    assert forall|i: int| 0 <= i < b.len() implies spec_uuid_text(#[trigger] b[i]) by {
        if i != m {
            assert(b[i] == a[if i < m { i } else { i - 1 }]);
        }
    }
    assert forall|i: int, j: int| 0 <= i < b.len() && 0 <= j < b.len() && i != j implies b[i] != b[j] by {
        if i != m {
            assert(b[i] == a[if i < m { i } else { i - 1 }]);
        }
        if j != m {
            assert(b[j] == a[if j < m { j } else { j - 1 }]);
        }
        if i == m {
            assert(a.contains(b[j]));
        }
        if j == m {
            assert(a.contains(b[i]));
        }
    }
    assert(ids_ok(t));
    // the new deck
    lemma_trim_twice(name);
    let p = default_parameters();
    assert forall|i: int| 0 <= i < p.len() implies binary32_finite(#[trigger] p[i]) by {
        if i == 0 {
        } else if i == 1 {
        } else if i == 2 {
        } else if i == 3 {
        } else if i == 4 {
        } else if i == 5 {
        } else if i == 6 {
        } else if i == 7 {
        } else if i == 8 {
        } else if i == 9 {
        } else if i == 10 {
        } else if i == 11 {
        } else if i == 12 {
        } else if i == 13 {
        } else if i == 14 {
        } else if i == 15 {
        } else if i == 16 {
        } else if i == 17 {
        } else if i == 18 {
        } else if i == 19 {
        } else if i == 20 {
        }
    }
    assert(parameters_ok(p));
    assert(deck_error(d) is None);
    lemma_decks_error_push(s.decks, d, s.decks.len() as int);
    assert(decks_error(t.decks, t.decks.len() as int) is None);
    // the cards keep their decks
    assert forall|x: Seq<char>| has_deck(s, x) implies has_deck(t, x) by {
        let w = choose|i: int| 0 <= i < s.decks.len() && s.decks[i].id == x;
        assert(t.decks[w].id == x);
    }
    lemma_cards_error_none(s, s.cards.len() as int);
    lemma_cards_error_none(t, t.cards.len() as int);
    assert forall|k: int| 0 <= k < t.cards.len() implies (#[trigger] card_error(t, t.cards[k])) is None by {
        assert(card_error(s, s.cards[k]) is None);
        assert(has_deck(s, s.cards[k].deck_id));
    }
    assert(same_card_keys(s, t));
    lemma_history_agree(s, t, s.reviews.len() as int);
    // the bonuses keep their decks
    lemma_bonuses_error_none(s, s.bonuses.len() as int);
    lemma_bonuses_error_none(t, t.bonuses.len() as int);
    assert forall|k: int| 0 <= k < t.bonuses.len() implies #[trigger] bonus_ok(t, k) by {
        assert(bonus_ok(s, k));
        let bo = s.bonuses[k];
        assert(has_deck(s, bo.deck_id));
        let w = choose|i: int| 0 <= i < s.decks.len() && s.decks[i].id == bo.deck_id;
        lemma_first_where_some(s.decks, |x: DeckV| x.id == bo.deck_id, w);
        lemma_first_where_found(s.decks, |x: DeckV| x.id == bo.deck_id);
        let pos = crate::model::deck_pos(s.decks, bo.deck_id);
        assert forall|q: int| 0 <= q < pos implies !(t.decks[q].id == bo.deck_id) by {
            assert(t.decks[q] == s.decks[q]);
        }
        lemma_first_where_at(t.decks, |x: DeckV| x.id == bo.deck_id, pos);
        assert(has_deck(t, bo.deck_id));
    }
}

/// Position in `a` of the `i`-th element that `p` keeps.
pub open spec fn kept_pos<A>(a: Seq<A>, p: spec_fn(A) -> bool, i: int) -> int
    decreases a.len(),
{
    if a.len() == 0 {
        0
    } else if p(a.last()) && i == a.drop_last().filter(p).len() {
        a.len() - 1
    } else {
        kept_pos(a.drop_last(), p, i)
    }
}

/// The kept elements sit, in order, at increasing positions of `a`.
pub proof fn lemma_kept_pos<A>(a: Seq<A>, p: spec_fn(A) -> bool)
    ensures
        forall|i: int|
            0 <= i < a.filter(p).len() ==> 0 <= #[trigger] kept_pos(a, p, i) < a.len() && a[kept_pos(a, p, i)]
                == a.filter(p)[i] && p(a[kept_pos(a, p, i)]),
        forall|i: int, j: int|
            0 <= i < j < a.filter(p).len() ==> #[trigger] kept_pos(a, p, i) < #[trigger] kept_pos(a, p, j),
    decreases a.len(),
{
    reveal(Seq::filter);
    if a.len() > 0 {
        let b = a.drop_last();
        lemma_kept_pos(b, p);
        assert forall|i: int| 0 <= i < a.filter(p).len() implies 0 <= #[trigger] kept_pos(a, p, i) < a.len()
            && a[kept_pos(a, p, i)] == a.filter(p)[i] && p(a[kept_pos(a, p, i)]) by {
            if p(a.last()) && i == b.filter(p).len() {
            } else {
                assert(kept_pos(a, p, i) == kept_pos(b, p, i));
                assert(a.filter(p)[i] == b.filter(p)[i]);
            }
        }
        assert forall|i: int, j: int| 0 <= i < j < a.filter(p).len() implies #[trigger] kept_pos(a, p, i)
            < #[trigger] kept_pos(a, p, j) by {
            if p(a.last()) && j == b.filter(p).len() {
                assert(kept_pos(a, p, i) == kept_pos(b, p, i));
            } else {
                assert(kept_pos(a, p, i) == kept_pos(b, p, i));
                assert(kept_pos(a, p, j) == kept_pos(b, p, j));
            }
        }
    }
}

/// What `p` keeps of a prefix of `a` is a prefix of what it keeps of `a`.
pub proof fn lemma_filter_prefix<A>(a: Seq<A>, p: spec_fn(A) -> bool, n: int)
    requires
        0 <= n <= a.len(),
    ensures
        a.take(n).filter(p).len() <= a.filter(p).len(),
        a.filter(p).take(a.take(n).filter(p).len() as int) == a.take(n).filter(p),
    decreases a.len() - n,
{
    reveal(Seq::filter);
    if n == a.len() {
        assert(a.take(n) =~= a);
        assert(a.filter(p).take(a.filter(p).len() as int) =~= a.filter(p));
    } else {
        lemma_filter_prefix(a, p, n + 1);
        let c = a.take(n + 1);
        assert(c.drop_last() =~= a.take(n));
        let f = a.take(n).filter(p);
        let g = c.filter(p);
        assert(a.filter(p).take(f.len() as int) =~= g.take(f.len() as int));
        assert(g.take(f.len() as int) =~= f);
    }
}

/// In a library whose identifiers are unique, no two decks and no two cards
/// share an identifier.
pub proof fn lemma_ids_distinct(s: SnapshotV)
    requires
        ids_ok(s),
    ensures
        forall|i: int, j: int|
            0 <= i < s.decks.len() && 0 <= j < s.decks.len() && i != j ==> #[trigger] s.decks[i].id
                != #[trigger] s.decks[j].id,
        forall|i: int, j: int|
            0 <= i < s.cards.len() && 0 <= j < s.cards.len() && i != j ==> #[trigger] s.cards[i].id
                != #[trigger] s.cards[j].id,
{
    let a = all_ids(s);
    let ds = s.decks.map_values(|d: DeckV| d.id);
    let cs = s.cards.map_values(|c: CardV| c.id);
    let rest = s.reviews.map_values(|v: ReviewV| v.id) + s.bonuses.map_values(|b: BonusV| b.id);
    assert(a =~= ds + cs + rest);
    assert forall|i: int, j: int|
        0 <= i < s.decks.len() && 0 <= j < s.decks.len() && i != j implies #[trigger] s.decks[i].id
            != #[trigger] s.decks[j].id by {
        assert(a[i] == s.decks[i].id);
        assert(a[j] == s.decks[j].id);
    }
    assert forall|i: int, j: int|
        0 <= i < s.cards.len() && 0 <= j < s.cards.len() && i != j implies #[trigger] s.cards[i].id
            != #[trigger] s.cards[j].id by {
        assert(a[ds.len() + i] == s.cards[i].id);
        assert(a[ds.len() + j] == s.cards[j].id);
    }
}

/// The identifiers of the library without a deck are unique and well formed.
#[verifier::spinoff_prover]
#[verifier::rlimit(50)]
proof fn lemma_delete_ids(s: SnapshotV, id: Seq<char>)
    requires
        ids_ok(s),
    ensures
        ids_ok(without_deck(s, id)),
{
    let t = without_deck(s, id);
    let pd = |d: DeckV| d.id != id;
    let pc = |c: CardV| c.deck_id != id;
    let pr = |v: ReviewV| v.deck_id != id;
    let pb = |b: BonusV| b.deck_id != id;
    lemma_kept_pos(s.decks, pd);
    lemma_kept_pos(s.cards, pc);
    lemma_kept_pos(s.reviews, pr);
    lemma_kept_pos(s.bonuses, pb);
    let a = all_ids(s);
    let b = all_ids(t);
    let ds = s.decks.map_values(|d: DeckV| d.id);
    let cs = s.cards.map_values(|c: CardV| c.id);
    let rs = s.reviews.map_values(|v: ReviewV| v.id);
    let bs = s.bonuses.map_values(|x: BonusV| x.id);
    let ds2 = t.decks.map_values(|d: DeckV| d.id);
    let cs2 = t.cards.map_values(|c: CardV| c.id);
    let rs2 = t.reviews.map_values(|v: ReviewV| v.id);
    let bs2 = t.bonuses.map_values(|x: BonusV| x.id);
    assert(a =~= ds + cs + rs + bs);
    assert(b =~= ds2 + cs2 + rs2 + bs2);
    let o1 = ds.len() as int;
    let o2 = o1 + cs.len();
    let o3 = o2 + rs.len();
    let q1 = ds2.len() as int;
    let q2 = q1 + cs2.len();
    let q3 = q2 + rs2.len();
    // the position in `a` of each identifier of `b`
    let f = |i: int|
        if i < q1 {
            kept_pos(s.decks, pd, i)
        } else if i < q2 {
            o1 + kept_pos(s.cards, pc, i - q1)
        } else if i < q3 {
            o2 + kept_pos(s.reviews, pr, i - q2)
        } else {
            o3 + kept_pos(s.bonuses, pb, i - q3)
        };
    assert forall|i: int| 0 <= i < b.len() implies 0 <= #[trigger] f(i) < a.len() && b[i] == a[f(i)] && (i < q1
        ==> f(i) < o1) && (q1 <= i < q2 ==> o1 <= f(i) < o2) && (q2 <= i < q3 ==> o2 <= f(i) < o3) && (q3 <= i
        ==> o3 <= f(i)) by {
        if i < q1 {
            assert(b[i] == t.decks[i].id);
        } else if i < q2 {
            assert(b[i] == t.cards[i - q1].id);
        } else if i < q3 {
            assert(b[i] == t.reviews[i - q2].id);
        } else {
            assert(b[i] == t.bonuses[i - q3].id);
        }
    }
    assert forall|i: int| 0 <= i < b.len() implies spec_uuid_text(#[trigger] b[i]) by {
        assert(b[i] == a[f(i)]);
    }
    assert forall|i: int, j: int| 0 <= i < b.len() && 0 <= j < b.len() && i != j implies b[i] != b[j] by {
        assert(b[i] == a[f(i)]);
        assert(b[j] == a[f(j)]);
        if i < j {
            if i < q1 && j < q1 {
                assert(kept_pos(s.decks, pd, i) < kept_pos(s.decks, pd, j));
            } else if q1 <= i < q2 && q1 <= j < q2 {
                assert(kept_pos(s.cards, pc, i - q1) < kept_pos(s.cards, pc, j - q1));
            } else if q2 <= i < q3 && q2 <= j < q3 {
                assert(kept_pos(s.reviews, pr, i - q2) < kept_pos(s.reviews, pr, j - q2));
            } else if q3 <= i && q3 <= j {
                assert(kept_pos(s.bonuses, pb, i - q3) < kept_pos(s.bonuses, pb, j - q3));
            }
            assert(f(i) < f(j));
        } else {
            if j < q1 && i < q1 {
                assert(kept_pos(s.decks, pd, j) < kept_pos(s.decks, pd, i));
            } else if q1 <= j < q2 && q1 <= i < q2 {
                assert(kept_pos(s.cards, pc, j - q1) < kept_pos(s.cards, pc, i - q1));
            } else if q2 <= j < q3 && q2 <= i < q3 {
                assert(kept_pos(s.reviews, pr, j - q2) < kept_pos(s.reviews, pr, i - q2));
            } else if q3 <= j && q3 <= i {
                assert(kept_pos(s.bonuses, pb, j - q3) < kept_pos(s.bonuses, pb, i - q3));
            }
            assert(f(j) < f(i));
        }
    }
}

/// The time `a` is no later than the time `b` (no time is earliest).
pub open spec fn not_later(a: Option<i64>, b: Option<i64>) -> bool {
    match a {
        None => true,
        Some(x) => b matches Some(y) && x <= y,
    }
}

/// Replaying the reviews that remain after a deck is deleted succeeds where
/// replaying all of them did, and gives every remaining card the same
/// schedule.
#[verifier::spinoff_prover]
#[verifier::rlimit(40)]
proof fn lemma_delete_history(s: SnapshotV, id: Seq<char>, n: int)
    requires
        ids_ok(s),
        0 <= n <= s.reviews.len(),
        history(s, n) is Ok,
    ensures
        history(without_deck(s, id), s.reviews.take(n).filter(|v: ReviewV| v.deck_id != id).len() as int) is Ok,
        not_later(
            history(without_deck(s, id), s.reviews.take(n).filter(|v: ReviewV| v.deck_id != id).len() as int)->Ok_0.last_at,
            history(s, n)->Ok_0.last_at,
        ),
        forall|c: int|
            0 <= c < s.cards.len() && s.cards[c].deck_id != id ==> latest_of(
                history(without_deck(s, id), s.reviews.take(n).filter(|v: ReviewV| v.deck_id != id).len() as int)->Ok_0,
                #[trigger] s.cards[c].id,
            ) == latest_of(history(s, n)->Ok_0, s.cards[c].id),
    decreases n,
{
    let t = without_deck(s, id);
    let pr = |v: ReviewV| v.deck_id != id;
    let pc = |c: CardV| c.deck_id != id;
    reveal(Seq::filter);
    if n == 0 {
        assert(s.reviews.take(0).filter(pr) =~= Seq::<ReviewV>::empty());
    } else {
        let r = s.reviews[n - 1];
        assert(history(s, n) == match history(s, n - 1) {
            Err(m) => Err(m),
            Ok(h) => review_step(s, h, r),
        });
        lemma_delete_history(s, id, n - 1);
        let h = history(s, n - 1)->Ok_0;
        assert(review_step(s, h, r) is Ok);
        let k0 = s.reviews.take(n - 1).filter(pr).len() as int;
        let k1 = s.reviews.take(n).filter(pr).len() as int;
        assert(s.reviews.take(n) =~= s.reviews.take(n - 1).push(r));
        crate::library::lemma_filter_push(s.reviews.take(n - 1), r, pr);
        lemma_filter_prefix(s.reviews, pr, n);
        lemma_ids_distinct(s);
        let ht = history(t, k0)->Ok_0;
        let ci = crate::model::card_pos(s.cards, r.card_id);
        lemma_first_where_found(s.cards, |c: CardV| c.id == r.card_id);
        assert(s.cards[ci].id == r.card_id);
        assert(s.cards[ci].deck_id == r.deck_id);
        assert(!(h.last_at matches Some(x) && x > r.at));
        if !pr(r) {
            assert(k1 == k0);
            assert forall|c: int| 0 <= c < s.cards.len() && s.cards[c].deck_id != id implies latest_of(
                ht,
                #[trigger] s.cards[c].id,
            ) == latest_of(history(s, n)->Ok_0, s.cards[c].id) by {
                assert(c != ci);
                assert(s.cards[c].id != r.card_id);
            }
        } else {
            assert(k1 == k0 + 1);
            assert(t.reviews.take(k1)[k0] == r);
            assert(t.reviews[k0] == r);
            assert(history(t, k1) == match history(t, k0) {
                Err(m) => Err(m),
                Ok(g) => review_step(t, g, r),
            });
            // the card of the review remains, and is the first with its id
            s.cards.lemma_filter_contains(pc, ci);
            assert(t.cards.contains(s.cards[ci]));
            let j = choose|j: int| 0 <= j < t.cards.len() && t.cards[j] == s.cards[ci];
            lemma_first_where_some(t.cards, |c: CardV| c.id == r.card_id, j);
            lemma_first_where_found(t.cards, |c: CardV| c.id == r.card_id);
            let tj = crate::model::card_pos(t.cards, r.card_id);
            lemma_kept_pos(s.cards, pc);
            let kp = kept_pos(s.cards, pc, tj);
            assert(t.cards[tj] == s.cards[kp]);
            assert(kp == ci);
            assert(t.cards[tj].deck_id == r.deck_id);
            assert(latest_of(ht, s.cards[ci].id) == latest_of(h, s.cards[ci].id));
            assert(latest_of(ht, r.card_id) == r.before);
            assert(!(ht.last_at matches Some(x) && x > r.at));
            assert(review_step(t, ht, r) == Ok::<History, Seq<char>>(
                History { latest: ht.latest.insert(r.card_id, r.after), last_at: Some(r.at) },
            ));
        }
    }
}

/// A deck that remains after another is deleted is still found by its id.
proof fn lemma_delete_keeps_deck(s: SnapshotV, id: Seq<char>, x: Seq<char>)
    requires
        ids_ok(s),
        has_deck(s, x),
        x != id,
    ensures
        has_deck(without_deck(s, id), x),
        crate::model::deck_pos(without_deck(s, id).decks, x) >= 0,
        without_deck(s, id).decks[crate::model::deck_pos(without_deck(s, id).decks, x)] == s.decks[crate::model::deck_pos(
            s.decks,
            x,
        )],
{
    let t = without_deck(s, id);
    let pd = |d: DeckV| d.id != id;
    let w = choose|i: int| 0 <= i < s.decks.len() && s.decks[i].id == x;
    s.decks.lemma_filter_contains(pd, w);
    let j = choose|j: int| 0 <= j < t.decks.len() && t.decks[j] == s.decks[w];
    assert(t.decks[j].id == x);
    lemma_first_where_some(t.decks, |d: DeckV| d.id == x, j);
    lemma_first_where_found(t.decks, |d: DeckV| d.id == x);
    lemma_first_where_some(s.decks, |d: DeckV| d.id == x, w);
    lemma_first_where_found(s.decks, |d: DeckV| d.id == x);
    lemma_kept_pos(s.decks, pd);
    lemma_ids_distinct(s);
    let tj = crate::model::deck_pos(t.decks, x);
    let sd = crate::model::deck_pos(s.decks, x);
    let kp = kept_pos(s.decks, pd, tj);
    assert(t.decks[tj] == s.decks[kp]);
    assert(kp == sd);
}

/// Deleting a deck with its cards, reviews and bonuses keeps a valid library
/// valid: what remains passes every integrity rule.
#[verifier::spinoff_prover]
#[verifier::rlimit(50)]
pub proof fn law_delete_deck_keeps_validity(s: SnapshotV, id: Seq<char>)
    requires
        snapshot_valid(s),
        s.revision < i64::MAX,
    ensures
        snapshot_valid(without_deck(s, id)),
{
    let t = without_deck(s, id);
    let pd = |d: DeckV| d.id != id;
    let pc = |c: CardV| c.deck_id != id;
    let pb = |b: BonusV| b.deck_id != id;
    lemma_delete_ids(s, id);
    // decks
    lemma_kept_pos(s.decks, pd);
    lemma_decks_error_none(s.decks, s.decks.len() as int);
    lemma_decks_error_none(t.decks, t.decks.len() as int);
    assert forall|i: int| 0 <= i < t.decks.len() implies (#[trigger] deck_error(t.decks[i])) is None by {
        assert(t.decks[i] == s.decks[kept_pos(s.decks, pd, i)]);
    }
    // cards
    lemma_kept_pos(s.cards, pc);
    lemma_cards_error_none(s, s.cards.len() as int);
    lemma_cards_error_none(t, t.cards.len() as int);
    assert forall|i: int| 0 <= i < t.cards.len() implies (#[trigger] card_error(t, t.cards[i])) is None by {
        let kp = kept_pos(s.cards, pc, i);
        assert(t.cards[i] == s.cards[kp]);
        assert(card_error(s, s.cards[kp]) is None);
        lemma_delete_keeps_deck(s, id, s.cards[kp].deck_id);
    }
    // history
    lemma_delete_history(s, id, s.reviews.len() as int);
    assert(s.reviews.take(s.reviews.len() as int) =~= s.reviews);
    let ht = history(t, t.reviews.len() as int)->Ok_0;
    let hs = history(s, s.reviews.len() as int)->Ok_0;
    assert forall|i: int| 0 <= i < t.cards.len() implies latest_of(ht, #[trigger] t.cards[i].id) == t.cards[i].schedule by {
        let kp = kept_pos(s.cards, pc, i);
        assert(t.cards[i] == s.cards[kp]);
        assert(latest_of(hs, s.cards[kp].id) == s.cards[kp].schedule);
    }
    assert(cards_match_history(t, ht));
    // bonuses
    lemma_kept_pos(s.bonuses, pb);
    lemma_bonuses_error_none(s, s.bonuses.len() as int);
    lemma_bonuses_error_none(t, t.bonuses.len() as int);
    assert forall|k: int| 0 <= k < t.bonuses.len() implies #[trigger] bonus_ok(t, k) by {
        let kb = kept_pos(s.bonuses, pb, k);
        let b = s.bonuses[kb];
        assert(t.bonuses[k] == b);
        assert(bonus_ok(s, kb));
        lemma_delete_keeps_deck(s, id, b.deck_id);
        let days_t = bonus_days(t.bonuses, k);
        let days_s = bonus_days(s.bonuses, kb);
        if days_t.contains((b.deck_id, b.day)) {
            let q = choose|q: int| 0 <= q < days_t.len() && days_t[q] == (b.deck_id, b.day);
            let kq = kept_pos(s.bonuses, pb, q);
            assert(kq < kb);
            assert(days_t[q] == (t.bonuses[q].deck_id, t.bonuses[q].day));
            assert(t.bonuses[q] == s.bonuses[kq]);
            assert(days_s[kq] == (s.bonuses[kq].deck_id, s.bonuses[kq].day));
            assert(days_s.contains((b.deck_id, b.day)));
        }
        assert(!days_t.to_set().contains((b.deck_id, b.day)));
    }
}

/// After a successful replay the history's time is that of the last review.
pub proof fn lemma_history_last_at(s: SnapshotV, n: int)
    requires
        0 <= n <= s.reviews.len(),
        history(s, n) is Ok,
    ensures
        history(s, n)->Ok_0.last_at == if n == 0 {
            None
        } else {
            Some(s.reviews[n - 1].at)
        },
    decreases n,
{
    if n > 0 {
        lemma_history_last_at(s, n - 1);
    }
}

/// Grading a card keeps a valid library valid, when the new review gets an
/// identifier the library does not use, the time of the grade and the card's
/// next due time are within the supported range, the scheduler's memory state
/// is a valid one (stability above zero, difficulty from 1 to 10) with an
/// interval of a day or more, the card can count one more review, and the text of the study day is one that the
/// date check reads back. (`chrono` documents that its dates are written and
/// read in the same `%Y-%m-%d` form; the library's own statements about
/// `chrono` do not say so, hence the last condition.)
#[verifier::spinoff_prover]
#[verifier::rlimit(50)]
pub proof fn law_grade_keeps_validity(
    s: SnapshotV,
    id: Seq<char>,
    rating: u32,
    now: i64,
    next: NextMemory,
    fresh: Seq<char>,
)
    requires
        snapshot_valid(s),
        s.revision < i64::MAX,
        graded(s, id, rating, now, next, fresh) is Ok,
        spec_uuid_text(fresh),
        !all_ids(s).contains(fresh),
        timestamp_ok(now),
        -62_135_596_800 <= now + interval_seconds(rating, next.interval_days) <= 253_402_300_799,
        rating == 1 || next.interval_days >= 1,
        binary32_positive(next.stability),
        binary32_one_to_ten(next.difficulty),
        s.cards[card_pos(s.cards, id)].schedule.reps < u32::MAX,
        spec_date_valid(today(s, now as int)->0),
    ensures
        snapshot_valid(graded(s, id, rating, now, next, fresh)->Ok_0),
{
    let t = graded(s, id, rating, now, next, fresh)->Ok_0;
    let p = plan_of(s, id, rating, now as int)->Ok_0;
    let ci = card_pos(s.cards, id);
    lemma_first_where_found(s.cards, |c: CardV| c.id == id);
    let card = s.cards[ci];
    let n = s.reviews.len() as int;
    let newr = t.reviews[n];
    let after = schedule_after(card.schedule, rating, now, next);
    assert(t.cards[ci].schedule == after);
    assert(newr.after == after && newr.before == card.schedule && newr.card_id == id);
    // identifiers
    let ds = s.decks.map_values(|d: DeckV| d.id);
    let cs = s.cards.map_values(|c: CardV| c.id);
    let rs = s.reviews.map_values(|v: ReviewV| v.id);
    let bs = s.bonuses.map_values(|b: BonusV| b.id);
    assert(t.cards.map_values(|c: CardV| c.id) =~= cs);
    assert(t.reviews.map_values(|v: ReviewV| v.id) =~= rs.push(fresh));
    let a = all_ids(s);
    let b = all_ids(t);
    assert(a =~= ds + cs + rs + bs);
    assert(b =~= ds + cs + rs.push(fresh) + bs);
    let m = (ds.len() + cs.len() + rs.len()) as int;
    assert forall|i: int| 0 <= i < b.len() && i != m implies #[trigger] b[i] == a[if i < m { i } else { i - 1 }] by {
    }
    assert(b[m] == fresh);
    assert forall|i: int| 0 <= i < b.len() implies spec_uuid_text(#[trigger] b[i]) by {
        if i != m {
            assert(b[i] == a[if i < m { i } else { i - 1 }]);
        }
    }
    assert forall|i: int, j: int| 0 <= i < b.len() && 0 <= j < b.len() && i != j implies b[i] != b[j] by {
        if i != m {
            assert(b[i] == a[if i < m { i } else { i - 1 }]);
        }
        if j != m {
            assert(b[j] == a[if j < m { j } else { j - 1 }]);
        }
        if i == m {
            assert(a.contains(b[j]));
        }
        if j == m {
            assert(a.contains(b[i]));
        }
    }
    assert(ids_ok(t));
    // the cards
    assert(same_deck_ids(s, t));
    lemma_cards_error_none(s, s.cards.len() as int);
    lemma_cards_error_none(t, t.cards.len() as int);
    assert(card_error(s, card) is None);
    assert forall|k: int| 0 <= k < t.cards.len() implies (#[trigger] card_error(t, t.cards[k])) is None by {
        assert(card_error(s, s.cards[k]) is None);
        lemma_has_deck_agree(s, t, s.cards[k].deck_id);
    }
    // the history with the new review
    assert(same_card_keys(s, t));
    lemma_history_agree(s, t, n);
    let h = history(s, n)->Ok_0;
    lemma_history_last_at(s, n);
    lemma_card_pos_agree(s, t, id);
    let di = crate::model::deck_pos(s.decks, card.deck_id);
    lemma_first_where_found(s.decks, |d: DeckV| d.id == card.deck_id);
    lemma_decks_error_none(s.decks, s.decks.len() as int);
    assert(deck_error(s.decks[di]) is None);
    assert(p.parameters == s.decks[di].parameters);
    assert(latest_of(h, card.id) == card.schedule);
    assert(history(t, n + 1) == match history(t, n) {
        Err(e) => Err(e),
        Ok(g) => review_step(t, g, newr),
    });
    let h2 = History { latest: h.latest.insert(id, after), last_at: Some(now) };
    assert(review_step(t, h, newr) == Ok::<History, Seq<char>>(h2));
    lemma_ids_distinct(s);
    assert forall|k: int| 0 <= k < t.cards.len() implies latest_of(h2, #[trigger] t.cards[k].id) == t.cards[k].schedule by {
        if k != ci {
            assert(s.cards[k].id != id);
            assert(latest_of(h, s.cards[k].id) == s.cards[k].schedule);
        }
    }
    assert(cards_match_history(t, h2));
    lemma_bonuses_error_agree(s, t, s.bonuses.len() as int);
}

/// Raising a deck's limits for the day keeps a valid library valid, when a
/// new bonus gets an identifier the library does not use and the text of the
/// study day is one that the date check reads back (see `law_grade_keeps_validity`).
#[verifier::spinoff_prover]
#[verifier::rlimit(50)]
pub proof fn law_bonus_keeps_validity(s: SnapshotV, id: Seq<char>, new: u32, review: u32, now: int, fresh: Seq<char>)
    requires
        snapshot_valid(s),
        s.revision < i64::MAX,
        bonus_added(s, id, new, review, now, fresh) is Ok,
        spec_uuid_text(fresh),
        !all_ids(s).contains(fresh),
        spec_date_valid(today(s, now)->0),
    ensures
        snapshot_valid(bonus_added(s, id, new, review, now, fresh)->Ok_0),
{
    let t = bonus_added(s, id, new, review, now, fresh)->Ok_0;
    let day = today(s, now)->0;
    let di = crate::model::deck_pos(s.decks, id);
    let bi = bonus_pos(s, id, day);
    lemma_first_where_found(s.decks, |d: DeckV| d.id == id);
    assert(s.decks[di].id == id);
    assert(has_deck(s, id));
    let n = s.bonuses.len() as int;
    lemma_bonuses_error_none(s, n);
    lemma_bonuses_error_none(t, t.bonuses.len() as int);
    lemma_cards_error_agree(s, t, s.cards.len() as int);
    assert(same_card_keys(s, t));
    lemma_history_agree(s, t, s.reviews.len() as int);
    if bi >= 0 {
        lemma_first_where_found(s.bonuses, |b: BonusV| b.deck_id == id && b.day == day);
        assert(t.bonuses.map_values(|b: BonusV| b.id) =~= s.bonuses.map_values(|b: BonusV| b.id));
        assert(all_ids(t) =~= all_ids(s));
        assert forall|k: int| 0 <= k < t.bonuses.len() implies #[trigger] bonus_ok(t, k) by {
            assert(bonus_ok(s, k));
            assert(bonus_days(t.bonuses, k) =~= bonus_days(s.bonuses, k));
            lemma_has_deck_agree(s, t, s.bonuses[k].deck_id);
        }
    } else {
        assert(t.bonuses.map_values(|b: BonusV| b.id) =~= s.bonuses.map_values(|b: BonusV| b.id).push(fresh));
        assert(all_ids(t) =~= all_ids(s).push(fresh));
        let a = all_ids(s);
        assert forall|i: int, j: int|
            0 <= i < all_ids(t).len() && 0 <= j < all_ids(t).len() && i != j implies all_ids(t)[i] != all_ids(t)[j] by {
            if i == a.len() {
                assert(a.contains(all_ids(t)[j]));
            }
            if j == a.len() {
                assert(a.contains(all_ids(t)[i]));
            }
        }
        assert forall|k: int| 0 <= k < t.bonuses.len() implies #[trigger] bonus_ok(t, k) by {
            if k < n {
                assert(bonus_ok(s, k));
                assert(bonus_days(t.bonuses, k) =~= bonus_days(s.bonuses, k));
                assert(t.bonuses[k] == s.bonuses[k]);
            } else {
                assert(t.bonuses[k].deck_id == id && t.bonuses[k].day == day);
                assert(has_deck(t, id));
                let days = bonus_days(t.bonuses, k);
                assert(days =~= bonus_days(s.bonuses, n));
                if days.contains((id, day)) {
                    let q = choose|q: int| 0 <= q < days.len() && days[q] == (id, day);
                    assert(s.bonuses[q].deck_id == id && s.bonuses[q].day == day);
                    lemma_first_where_some(s.bonuses, |b: BonusV| b.deck_id == id && b.day == day, q);
                }
            }
        }
    }
}

/// Editing a card's content keeps a valid library valid when the question and
/// the answer are not blank: the card keeps its identity, deck and review
/// state; given choices replace its own, those with a blank text left out,
/// and without them it keeps its own.
#[verifier::spinoff_prover]
#[verifier::rlimit(40)]
pub proof fn law_edit_keeps_validity(
    s: SnapshotV,
    id: Seq<char>,
    question: Seq<char>,
    answer: Seq<char>,
    explanation: Seq<char>,
    choices: Option<Seq<ChoiceV>>,
)
    requires
        snapshot_valid(s),
        s.revision < i64::MAX,
        !blank(question),
        !blank(answer),
        card_pos(s.cards, id) >= 0,
    ensures
        snapshot_valid(edited(s, id, question, answer, explanation, choices)),
{
    let ci = card_pos(s.cards, id);
    lemma_first_where_found(s.cards, |c: CardV| c.id == id);
    let o = s.cards[ci];
    let kept = match choices {
        Some(x) => kept_choices(x),
        None => o.choices,
    };
    let c = CardV { question, answer, explanation, choices: kept, ..o };
    let t = SnapshotV { revision: (s.revision + 1) as u64, cards: s.cards.update(ci, c), ..s };
    assert(t.cards.map_values(|x: CardV| x.id) =~= s.cards.map_values(|x: CardV| x.id));
    assert(all_ids(t) =~= all_ids(s));
    assert(same_deck_ids(s, t));
    assert(same_card_keys(s, t));
    lemma_cards_error_none(s, s.cards.len() as int);
    lemma_cards_error_none(t, t.cards.len() as int);
    assert(card_error(s, o) is None);
    assert forall|q: int| 0 <= q < kept.len() implies !blank(#[trigger] kept[q].text) by {
        if let Some(x) = choices {
            x.lemma_filter_pred(|y: ChoiceV| !blank(y.text), q);
        }
    }
    assert(!(exists|q: int| 0 <= q < c.choices.len() && blank(c.choices[q].text)));
    assert forall|k: int| 0 <= k < t.cards.len() implies (#[trigger] card_error(t, t.cards[k])) is None by {
        assert(card_error(s, s.cards[k]) is None);
        lemma_has_deck_agree(s, t, s.cards[k].deck_id);
    }
    lemma_history_agree(s, t, s.reviews.len() as int);
    let h = history(s, s.reviews.len() as int)->Ok_0;
    assert forall|k: int| 0 <= k < t.cards.len() implies latest_of(h, #[trigger] t.cards[k].id) == t.cards[k].schedule by {
        assert(latest_of(h, s.cards[k].id) == s.cards[k].schedule);
    }
    lemma_bonuses_error_agree(s, t, s.bonuses.len() as int);
}

/// Adopting trained parameters that pass the parameter check keeps a valid
/// library valid.
#[verifier::spinoff_prover]
#[verifier::rlimit(40)]
pub proof fn law_parameters_keep_validity(s: SnapshotV, deck: Seq<char>, p: Seq<u32>)
    requires
        snapshot_valid(s),
        s.revision < i64::MAX,
        crate::model::deck_pos(s.decks, deck) >= 0,
        parameters_ok(p),
    ensures
        snapshot_valid(parameters_applied(s, deck, p)),
{
    let t = parameters_applied(s, deck, p);
    let di = crate::model::deck_pos(s.decks, deck);
    lemma_first_where_found(s.decks, |d: DeckV| d.id == deck);
    assert(same_deck_ids(s, t));
    assert(t.decks.map_values(|d: DeckV| d.id) =~= s.decks.map_values(|d: DeckV| d.id));
    assert(all_ids(t) == all_ids(s));
    lemma_decks_error_none(s.decks, s.decks.len() as int);
    lemma_decks_error_none(t.decks, t.decks.len() as int);
    assert forall|k: int| 0 <= k < t.decks.len() implies (#[trigger] deck_error(t.decks[k])) is None by {
        assert(deck_error(s.decks[k]) is None);
    }
    lemma_cards_error_agree(s, t, s.cards.len() as int);
    lemma_history_agree(s, t, s.reviews.len() as int);
    crate::import_validity::lemma_bonuses_error_limits(s, t, s.bonuses.len() as int);
}

} // verus!

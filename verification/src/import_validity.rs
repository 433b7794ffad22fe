//! Applying an import keeps a valid library valid: every card that a checked
//! preview writes passes the card rules, existing cards keep their identity
//! and review state, and new cards start unlearned under unused identifiers;
//! and each written card is found, once, under its identifier.
use vstd::prelude::*;
use crate::text::{blank, trim, trim_start, trim_end, is_ws, join};
use crate::model::{ChoiceV, CardV, ChangeV, unlearned};
use crate::library::{apply_change, apply_changes, applied};
use crate::import::{
    GroupV, RowsV, unique_push, add_parts, add_columns, row_step, group_rows, join_row, merge_groups, merge_step, candidate,
    preview_of, ascending, deck_cards,
};
use crate::model::{ParsedCsvV, SnapshotV, deck_pos, DeckV, ReviewV, BonusV, card_pos, lemma_first_where_at, lemma_first_where_found, lemma_first_where_some};
use crate::storage::{
    history, review_step, has_deck, bonuses_error, ids_ok, all_ids, snapshot_valid, timestamp_ok, cards_error, card_error,
    deck_error, schedule_error, latest_of, cards_match_history,
};
use crate::validity::{
    same_deck_ids, lemma_has_deck_agree, lemma_deck_pos_agree, lemma_cards_error_none, lemma_decks_error_none,
    lemma_ids_distinct,
};
use crate::ids::spec_uuid_text;
use crate::model::MappingV;

verus! {

/// Nothing but whitespace, stated character by character.
pub open spec fn all_ws(s: Seq<char>) -> bool {
    forall|i: int| 0 <= i < s.len() ==> is_ws(#[trigger] s[i])
}

proof fn lemma_trim_start_all_ws(s: Seq<char>)
    ensures
        all_ws(s) ==> trim_start(s).len() == 0,
        !all_ws(s) ==> trim_start(s).len() > 0 && !is_ws(trim_start(s)[0]),
    decreases s.len(),
{
    if s.len() > 0 && is_ws(s[0]) {
        lemma_trim_start_all_ws(s.drop_first());
        if !all_ws(s) {
            let i = choose|i: int| 0 <= i < s.len() && !is_ws(s[i]);
            assert(s.drop_first()[i - 1] == s[i]);
        }
        if all_ws(s) {
            assert forall|i: int| 0 <= i < s.drop_first().len() implies is_ws(#[trigger] s.drop_first()[i]) by {
                assert(s.drop_first()[i] == s[i + 1]);
            }
        }
    } else if s.len() > 0 {
        assert(!is_ws(s[0]));
    }
}

proof fn lemma_trim_end_keeps_first(s: Seq<char>)
    requires
        s.len() > 0,
        !is_ws(s[0]),
    ensures
        trim_end(s).len() > 0,
    decreases s.len(),
{
    if s.len() > 1 && is_ws(s.last()) {
        assert(s.drop_last()[0] == s[0]);
        lemma_trim_end_keeps_first(s.drop_last());
    }
}

/// A text is blank exactly when all of its characters are whitespace.
pub proof fn lemma_blank_all_ws(s: Seq<char>)
    ensures
        blank(s) <==> all_ws(s),
{
    lemma_trim_start_all_ws(s);
    if !all_ws(s) {
        lemma_trim_end_keeps_first(trim_start(s));
    }
}

/// Texts joined with a separator are not blank when the last one is not.
pub proof fn lemma_join_not_blank(parts: Seq<Seq<char>>, sep: Seq<char>)
    requires
        parts.len() > 0,
        !blank(parts.last()),
    ensures
        !blank(join(parts, sep)),
{
    lemma_blank_all_ws(parts.last());
    let x = parts.last();
    let i = choose|i: int| 0 <= i < x.len() && !is_ws(x[i]);
    let j = join(parts, sep);
    if parts.len() == 1 {
        assert(j == x);
        assert(!is_ws(j[i]));
    } else {
        let pre = join(parts.drop_last(), sep) + sep;
        assert(j == pre + x);
        assert(j[pre.len() + i] == x[i]);
    }
    lemma_blank_all_ws(j);
}

/// All choices have a text that is not blank.
pub open spec fn choices_filled(c: Seq<ChoiceV>) -> bool {
    forall|k: int| 0 <= k < c.len() ==> !blank(#[trigger] c[k].text)
}

/// What every group read from a CSV satisfies: its question, answers, chosen
/// ID and choices are not blank, and it has an answer.
pub open spec fn group_ok(g: GroupV) -> bool {
    &&& !blank(g.question)
    &&& (g.source_id matches Some(x) ==> !blank(x))
    &&& g.answers.len() > 0
    &&& forall|k: int| 0 <= k < g.answers.len() ==> !blank(#[trigger] g.answers[k])
    &&& choices_filled(g.choices)
}

proof fn lemma_add_parts_filled(choices: Seq<ChoiceV>, parts: Seq<Seq<char>>, label: Seq<char>)
    requires
        choices_filled(choices),
    ensures
        choices_filled(add_parts(choices, parts, label)),
    decreases parts.len(),
{
    if parts.len() > 0 {
        lemma_add_parts_filled(choices, parts.drop_last(), label);
        let c = add_parts(choices, parts.drop_last(), label);
        if !blank(parts.last()) {
            let x = ChoiceV { label, text: parts.last() };
            assert forall|k: int| 0 <= k < unique_push(c, x).len() implies !blank(#[trigger] unique_push(c, x)[k].text) by {
                if k < c.len() {
                    assert(unique_push(c, x)[k] == c[k]);
                }
            }
        }
    }
}

proof fn lemma_add_columns_filled(
    choices: Seq<ChoiceV>,
    row: Seq<Seq<char>>,
    headers: Seq<Seq<char>>,
    cols: Seq<usize>,
    sep: Option<Seq<char>>,
)
    requires
        choices_filled(choices),
    ensures
        choices_filled(add_columns(choices, row, headers, cols, sep)),
    decreases cols.len(),
{
    if cols.len() > 0 {
        lemma_add_columns_filled(choices, row, headers, cols.drop_last(), sep);
        let c = add_columns(choices, row, headers, cols.drop_last(), sep);
        let col = cols.last();
        lemma_add_parts_filled(c, crate::import::choice_parts(row[col as int], sep), crate::import::choice_label(headers, col, sep));
    }
}

proof fn lemma_join_row_ok(
    g: GroupV,
    line: usize,
    answer: Seq<char>,
    explanation: Seq<char>,
    row: Seq<Seq<char>>,
    headers: Seq<Seq<char>>,
    cols: Seq<usize>,
    sep: Option<Seq<char>>,
)
    requires
        !blank(g.question),
        g.source_id matches Some(x) ==> !blank(x),
        forall|k: int| 0 <= k < g.answers.len() ==> !blank(#[trigger] g.answers[k]),
        choices_filled(g.choices),
        !blank(answer),
    ensures
        group_ok(join_row(g, line, answer, explanation, row, headers, cols, sep)),
{
    let j = join_row(g, line, answer, explanation, row, headers, cols, sep);
    lemma_add_columns_filled(g.choices, row, headers, cols, sep);
    assert forall|k: int| 0 <= k < j.answers.len() implies !blank(#[trigger] j.answers[k]) by {
        if k < g.answers.len() {
            assert(j.answers[k] == g.answers[k]);
        }
    }
}

/// Every group read from the first `n` rows satisfies `group_ok`.
pub proof fn lemma_group_rows_ok(csv: ParsedCsvV, m: MappingV, cols: Seq<usize>, n: int)
    ensures
        forall|k: int| 0 <= k < group_rows(csv, m, cols, n).groups.len() ==> group_ok(
            #[trigger] group_rows(csv, m, cols, n).groups[k],
        ),
    decreases n,
{
    if n > 0 {
        lemma_group_rows_ok(csv, m, cols, n - 1);
        let acc = group_rows(csv, m, cols, n - 1);
        let r = group_rows(csv, m, cols, n);
        assert(r == row_step(acc, csv, m, cols, n - 1));
        let i = n - 1;
        let line = crate::import::row_line(csv, i);
        let row = csv.rows[i];
        if row.len() == csv.headers.len() {
            let question = row[m.question as int];
            let answer = row[m.answer as int];
            let explanation = match m.explanation {
                Some(c) => row[c as int],
                None => seq![],
            };
            let source_id = match m.id {
                Some(c) => Some(row[c as int]),
                None => None,
            };
            if !(blank(question) || blank(answer) || (source_id matches Some(x) && blank(x))) {
                let key = match source_id {
                    Some(x) => x,
                    None => question,
                };
                let gi = crate::import::group_pos(acc.groups, key);
                if gi >= 0 {
                    lemma_first_where_found_groups(acc.groups, key);
                    let g = acc.groups[gi];
                    if g.question == question {
                        lemma_join_row_ok(g, line, answer, explanation, row, csv.headers, cols, m.choice_separator);
                        assert forall|k: int| 0 <= k < r.groups.len() implies group_ok(#[trigger] r.groups[k]) by {
                            if k != gi {
                                assert(r.groups[k] == acc.groups[k]);
                            }
                        }
                    }
                } else {
                    let g = GroupV {
                        key,
                        question,
                        source_id,
                        answers: seq![],
                        explanations: seq![],
                        choices: seq![],
                        lines: seq![],
                    };
                    lemma_join_row_ok(g, line, answer, explanation, row, csv.headers, cols, m.choice_separator);
                    assert forall|k: int| 0 <= k < r.groups.len() implies group_ok(#[trigger] r.groups[k]) by {
                        if k < acc.groups.len() {
                            assert(r.groups[k] == acc.groups[k]);
                        }
                    }
                }
            }
        }
    }
}

proof fn lemma_first_where_found_groups(groups: Seq<GroupV>, key: Seq<char>)
    requires
        crate::import::group_pos(groups, key) >= 0,
    ensures
        0 <= crate::import::group_pos(groups, key) < groups.len(),
{
    crate::model::lemma_first_where_found(groups, |g: GroupV| g.key == key);
}

/// The content of a card passes the card rules: question and answer, a
/// chosen ID and every choice are not blank.
pub open spec fn content_ok(c: CardV) -> bool {
    &&& !blank(c.question)
    &&& !blank(c.answer)
    &&& (c.source_id matches Some(x) ==> !blank(x))
    &&& choices_filled(c.choices)
}

/// What the `k`-th change of an import writes: a card with good content that
/// is either an existing card of the deck with new content, or a new unlearned
/// card of the deck under the `k`-th fresh identifier.
pub open spec fn written_ok(
    ch: ChangeV,
    k: int,
    existing: Seq<CardV>,
    deck: Seq<char>,
    now: i64,
    fresh: Seq<Seq<char>>,
) -> bool {
    &&& content_ok(ch.after)
    &&& match ch.before {
        Some(b) => existing.contains(b) && ch.after.id == b.id && ch.after.deck_id == b.deck_id
            && ch.after.created_at == b.created_at && ch.after.schedule == b.schedule,
        None => ch.after.id == fresh[k] && ch.after.deck_id == deck && ch.after.created_at == now
            && ch.after.schedule == unlearned(),
    }
}

/// Every change of the merge writes what `written_ok` says.
pub proof fn lemma_merge_written_ok(
    groups: Seq<GroupV>,
    existing: Seq<CardV>,
    by_id: bool,
    deck: Seq<char>,
    now: i64,
    fresh: Seq<Seq<char>>,
    n: int,
)
    requires
        0 <= n <= groups.len(),
        forall|k: int| 0 <= k < groups.len() ==> group_ok(#[trigger] groups[k]),
        forall|k: int| 0 <= k < existing.len() ==> ((#[trigger] existing[k]).source_id matches Some(x) ==> !blank(x)),
    ensures
        forall|k: int|
            0 <= k < merge_groups(groups, existing, by_id, deck, now, fresh, n).changes.len() ==> written_ok(
                #[trigger] merge_groups(groups, existing, by_id, deck, now, fresh, n).changes[k],
                k,
                existing,
                deck,
                now,
                fresh,
            ),
    decreases n,
{
    if n > 0 {
        lemma_merge_written_ok(groups, existing, by_id, deck, now, fresh, n - 1);
        let acc = merge_groups(groups, existing, by_id, deck, now, fresh, n - 1);
        let m = merge_groups(groups, existing, by_id, deck, now, fresh, n);
        let g = groups[n - 1];
        assert(m == merge_step(acc, g, existing, by_id, deck, now, fresh));
        assert(group_ok(g));
        let pred = |c: CardV| candidate(c, g.key, by_id);
        let matches = existing.filter(pred);
        if matches.len() <= 1 {
            let k = acc.changes.len() as int;
            let ch = m.changes[k];
            lemma_join_not_blank(g.answers, "\n\n"@);
            if matches.len() == 1 {
                crate::validity::lemma_kept_pos(existing, pred);
                let j = crate::validity::kept_pos(existing, pred, 0);
                assert(existing[j] == matches[0]);
                assert(existing.contains(matches[0]));
            }
            assert(written_ok(ch, k, existing, deck, now, fresh));
            assert forall|q: int| 0 <= q < m.changes.len() implies written_ok(
                #[trigger] m.changes[q],
                q,
                existing,
                deck,
                now,
                fresh,
            ) by {
                if q < k {
                    assert(m.changes[q] == acc.changes[q]);
                }
            }
        }
    }
}

/// An existing card after an import: the same identity, deck, creation time
/// and review state, and either untouched or with good content.
pub open spec fn kept_card(before: CardV, after: CardV) -> bool {
    &&& after.id == before.id
    &&& after.deck_id == before.deck_id
    &&& after.created_at == before.created_at
    &&& after.schedule == before.schedule
    &&& (after == before || content_ok(after))
}

/// A card an import adds: good content, in the deck, created now, unlearned.
pub open spec fn added_card(c: CardV, deck: Seq<char>, now: i64) -> bool {
    &&& content_ok(c)
    &&& c.deck_id == deck
    &&& c.created_at == now
    &&& c.schedule == unlearned()
}

/// The `j`-th change adds a card, under the `j`-th fresh identifier `x`.
pub open spec fn added_at(changes: Seq<ChangeV>, fresh: Seq<Seq<char>>, j: int, x: Seq<char>) -> bool {
    changes[j].before is None && fresh[j] == x
}

/// The cards after the first `n` changes: the old cards kept in place, then
/// added cards under distinct identifiers, each the fresh one of a change that
/// adds a card.
pub open spec fn cards_after_ok(
    old: Seq<CardV>,
    c: Seq<CardV>,
    deck: Seq<char>,
    now: i64,
    changes: Seq<ChangeV>,
    fresh: Seq<Seq<char>>,
    n: int,
) -> bool {
    &&& c.len() >= old.len()
    &&& forall|i: int| 0 <= i < old.len() ==> kept_card(old[i], #[trigger] c[i])
    &&& forall|i: int|
        old.len() <= i < c.len() ==> added_card(#[trigger] c[i], deck, now) && exists|j: int|
            0 <= j < n && #[trigger] added_at(changes, fresh, j, c[i].id)
    &&& forall|i: int, j: int| old.len() <= i < j < c.len() ==> #[trigger] c[i].id != #[trigger] c[j].id
}

/// Applying the changes of an import one by one keeps `cards_after_ok`.
#[verifier::spinoff_prover]
#[verifier::rlimit(40)]
pub proof fn lemma_apply_changes_ok(
    old: Seq<CardV>,
    changes: Seq<ChangeV>,
    existing: Seq<CardV>,
    deck: Seq<char>,
    now: i64,
    fresh: Seq<Seq<char>>,
    n: int,
)
    requires
        0 <= n <= changes.len(),
        forall|k: int| 0 <= k < changes.len() ==> written_ok(#[trigger] changes[k], k, existing, deck, now, fresh),
        forall|k: int| 0 <= k < existing.len() ==> old.contains(#[trigger] existing[k]),
        forall|i: int, j: int| 0 <= i < old.len() && 0 <= j < old.len() && i != j ==> #[trigger] old[i].id != #[trigger] old[j].id,
        forall|i: int, j: int|
            0 <= i < j < changes.len() && changes[i].before is None && changes[j].before is None ==> #[trigger] fresh[i]
                != #[trigger] fresh[j],
        forall|k: int, i: int|
            0 <= k < changes.len() && changes[k].before is None && 0 <= i < old.len() ==> #[trigger] fresh[k]
                != #[trigger] old[i].id,
    ensures
        cards_after_ok(old, apply_changes(old, changes.take(n)), deck, now, changes, fresh, n),
    decreases n,
{
    if n == 0 {
        assert(changes.take(0) =~= seq![]);
        assert(apply_changes(old, changes.take(0)) == old);
    } else {
        lemma_apply_changes_ok(old, changes, existing, deck, now, fresh, n - 1);
        let c = apply_changes(old, changes.take(n - 1));
        assert(changes.take(n).drop_last() =~= changes.take(n - 1));
        let ch = changes[n - 1];
        assert(changes.take(n).last() == ch);
        let r = apply_changes(old, changes.take(n));
        assert(r == apply_change(c, ch.after));
        assert(written_ok(ch, n - 1, existing, deck, now, fresh));
        let p = |cc: CardV| cc.id == ch.after.id;
        match ch.before {
            Some(b) => {
                let e = choose|e: int| 0 <= e < existing.len() && #[trigger] existing[e] == b;
                assert(old.contains(existing[e]));
                let w = choose|w: int| 0 <= w < old.len() && #[trigger] old[w] == b;
                assert(kept_card(old[w], c[w]));
                crate::model::lemma_first_where_some(c, p, w);
                crate::model::lemma_first_where_found(c, p);
                let i = crate::model::card_pos(c, ch.after.id);
                if i >= old.len() {
                    let j = choose|j: int| 0 <= j < n - 1 && #[trigger] added_at(changes, fresh, j, c[i].id);
                    assert(fresh[j] != old[w].id);
                    assert(false);
                }
                assert(c[i].id == old[i].id);
                assert(i == w);
                assert(r == c.update(i, ch.after));
                assert forall|q: int| 0 <= q < old.len() implies kept_card(old[q], #[trigger] r[q]) by {
                    if q != i {
                        assert(r[q] == c[q]);
                        assert(kept_card(old[q], c[q]));
                    }
                }
                assert forall|q: int| old.len() <= q < r.len() implies added_card(#[trigger] r[q], deck, now)
                    && exists|j: int| 0 <= j < n && #[trigger] added_at(changes, fresh, j, r[q].id) by {
                    assert(r[q] == c[q]);
                    let j = choose|j: int| 0 <= j < n - 1 && #[trigger] added_at(changes, fresh, j, c[q].id);
                    assert(added_at(changes, fresh, j, r[q].id));
                }
                assert forall|q: int, t: int| old.len() <= q < t < r.len() implies #[trigger] r[q].id != #[trigger] r[t].id by {
                    assert(r[q] == c[q]);
                    assert(r[t] == c[t]);
                }
            },
            None => {
                assert forall|q: int| 0 <= q < c.len() implies !p(#[trigger] c[q]) by {
                    if q < old.len() {
                        assert(kept_card(old[q], c[q]));
                        assert(fresh[n - 1] != old[q].id);
                    } else {
                        let j = choose|j: int| 0 <= j < n - 1 && #[trigger] added_at(changes, fresh, j, c[q].id);
                        assert(fresh[j] != fresh[n - 1]);
                    }
                }
                crate::model::lemma_first_where_none(c, p);
                assert(r == c.push(ch.after));
                assert(added_at(changes, fresh, n - 1, ch.after.id));
                assert forall|q: int| 0 <= q < old.len() implies kept_card(old[q], #[trigger] r[q]) by {
                    assert(r[q] == c[q]);
                }
                assert forall|q: int| old.len() <= q < r.len() implies added_card(#[trigger] r[q], deck, now)
                    && exists|j: int| 0 <= j < n && #[trigger] added_at(changes, fresh, j, r[q].id) by {
                    if q < c.len() {
                        assert(r[q] == c[q]);
                        let j = choose|j: int| 0 <= j < n - 1 && #[trigger] added_at(changes, fresh, j, c[q].id);
                        assert(added_at(changes, fresh, j, r[q].id));
                    } else {
                        assert(added_at(changes, fresh, n - 1, r[q].id));
                    }
                }
                assert forall|q: int, t: int| old.len() <= q < t < r.len() implies #[trigger] r[q].id != #[trigger] r[t].id by {
                    assert(r[q] == c[q]);
                    if t < c.len() {
                        assert(r[t] == c[t]);
                    } else {
                        let j = choose|j: int| 0 <= j < n - 1 && #[trigger] added_at(changes, fresh, j, c[q].id);
                        assert(fresh[j] != fresh[n - 1]);
                    }
                }
            },
        }
    }
}

/// Replaying the reviews over more cards, the old ones kept in place with
/// their identifiers and decks, gives the same history where the old replay
/// succeeded.
pub proof fn lemma_history_extend(s: SnapshotV, t: SnapshotV, n: int)
    requires
        0 <= n <= s.reviews.len(),
        s.reviews == t.reviews,
        t.cards.len() >= s.cards.len(),
        forall|k: int| 0 <= k < s.cards.len() ==> #[trigger] t.cards[k].id == s.cards[k].id && t.cards[k].deck_id
            == s.cards[k].deck_id,
        history(s, n) is Ok,
    ensures
        history(t, n) == history(s, n),
    decreases n,
{
    if n > 0 {
        assert(history(s, n - 1) is Ok);
        lemma_history_extend(s, t, n - 1);
        let h = history(s, n - 1)->Ok_0;
        let r = s.reviews[n - 1];
        assert(review_step(s, h, r) is Ok);
        let ci = card_pos(s.cards, r.card_id);
        lemma_first_where_found(s.cards, |c: CardV| c.id == r.card_id);
        assert forall|k: int| 0 <= k < ci implies !((|c: CardV| c.id == r.card_id)(#[trigger] t.cards[k])) by {
            assert(!((|c: CardV| c.id == r.card_id)(s.cards[k])));
        }
        assert(t.cards[ci].id == s.cards[ci].id);
        lemma_first_where_at(t.cards, |c: CardV| c.id == r.card_id, ci);
        assert(card_pos(t.cards, r.card_id) == ci);
        assert(review_step(t, h, r) == review_step(s, h, r));
    }
}

/// Every card the history speaks of is a card of the library.
pub proof fn lemma_history_keys(s: SnapshotV, n: int)
    requires
        0 <= n <= s.reviews.len(),
        history(s, n) is Ok,
    ensures
        forall|id: Seq<char>| #[trigger] history(s, n)->Ok_0.latest.contains_key(id) ==> card_pos(s.cards, id) >= 0,
    decreases n,
{
    if n > 0 {
        assert(history(s, n - 1) is Ok);
        lemma_history_keys(s, n - 1);
        let h = history(s, n - 1)->Ok_0;
        let r = s.reviews[n - 1];
        assert(review_step(s, h, r) is Ok);
        assert(card_pos(s.cards, r.card_id) >= 0);
        assert forall|id: Seq<char>| #[trigger] history(s, n)->Ok_0.latest.contains_key(id) implies card_pos(
            s.cards,
            id,
        ) >= 0 by {
            if id != r.card_id {
                assert(h.latest.contains_key(id));
            }
        }
    }
}

/// The bonus rules give the same verdicts when the deck identifiers and the
/// decks' limits agree.
pub proof fn lemma_bonuses_error_limits(s: SnapshotV, t: SnapshotV, n: int)
    requires
        same_deck_ids(s, t),
        forall|k: int|
            0 <= k < s.decks.len() ==> (#[trigger] t.decks[k]).new_limit == s.decks[k].new_limit && t.decks[k].review_limit
                == s.decks[k].review_limit,
        s.bonuses == t.bonuses,
    ensures
        bonuses_error(s, n) == bonuses_error(t, n),
    decreases n,
{
    if n > 0 {
        lemma_bonuses_error_limits(s, t, n - 1);
        let b = s.bonuses[n - 1];
        lemma_has_deck_agree(s, t, b.deck_id);
        lemma_deck_pos_agree(s, t, b.deck_id);
        if has_deck(s, b.deck_id) {
            let w = choose|i: int| 0 <= i < s.decks.len() && s.decks[i].id == b.deck_id;
            lemma_first_where_some(s.decks, |d: DeckV| d.id == b.deck_id, w);
            lemma_first_where_found(s.decks, |d: DeckV| d.id == b.deck_id);
            let i = crate::model::deck_pos(s.decks, b.deck_id);
            assert(t.decks[i].new_limit == s.decks[i].new_limit);
        }
    }
}

/// The identifiers stay unique UUIDs when cards are added under unused,
/// distinct UUIDs.
#[verifier::spinoff_prover]
#[verifier::rlimit(60)]
pub proof fn lemma_ids_after_import(
    s: SnapshotV,
    t: SnapshotV,
    deck: Seq<char>,
    now: i64,
    changes: Seq<ChangeV>,
    fresh: Seq<Seq<char>>,
)
    requires
        ids_ok(s),
        same_deck_ids(s, t),
        t.reviews == s.reviews,
        t.bonuses == s.bonuses,
        cards_after_ok(s.cards, t.cards, deck, now, changes, fresh, changes.len() as int),
        forall|k: int|
            0 <= k < changes.len() && changes[k].before is None ==> spec_uuid_text(#[trigger] fresh[k]) && !all_ids(
                s,
            ).contains(fresh[k]),
    ensures
        ids_ok(t),
{
    let ds = s.decks.map_values(|d: DeckV| d.id);
    let cs = s.cards.map_values(|c: CardV| c.id);
    let cs2 = t.cards.map_values(|c: CardV| c.id);
    let rs = s.reviews.map_values(|v: ReviewV| v.id);
    let bs = s.bonuses.map_values(|b: BonusV| b.id);
    assert(t.decks.map_values(|d: DeckV| d.id) =~= ds);
    let a = all_ids(s);
    let b = all_ids(t);
    assert(a =~= ds + cs + rs + bs);
    assert(b =~= ds + cs2 + rs + bs);
    let lo = (ds.len() + cs.len()) as int;
    let e = (cs2.len() - cs.len()) as int;
    let hi = lo + e;
    assert(b.len() == a.len() + e);
    assert forall|i: int| 0 <= i < lo implies #[trigger] b[i] == a[i] by {
        if i >= ds.len() {
            let q = i - ds.len();
            assert(kept_card(s.cards[q], t.cards[q]));
        }
    }
    assert forall|i: int| hi <= i < b.len() implies #[trigger] b[i] == a[i - e] by {
    }
    assert forall|i: int| lo <= i < hi implies spec_uuid_text(#[trigger] b[i]) && !a.contains(b[i]) by {
        let q = i - ds.len();
        assert(b[i] == t.cards[q].id);
        let j = choose|j: int| 0 <= j < changes.len() && #[trigger] added_at(changes, fresh, j, t.cards[q].id);
        assert(spec_uuid_text(fresh[j]));
    }
    assert forall|i: int| 0 <= i < b.len() implies spec_uuid_text(#[trigger] b[i]) by {
        if i < lo {
            assert(b[i] == a[i]);
        } else if i >= hi {
            assert(b[i] == a[i - e]);
        }
    }
    assert forall|i: int, j: int| 0 <= i < j < b.len() implies b[i] != b[j] by {
        if i < lo && j < lo {
            assert(b[i] == a[i] && b[j] == a[j]);
        } else if i < lo && j >= hi {
            assert(b[i] == a[i] && b[j] == a[j - e]);
        } else if i >= hi && j >= hi {
            assert(b[i] == a[i - e] && b[j] == a[j - e]);
        } else if i < lo {
            assert(b[i] == a[i]);
            assert(!a.contains(b[j]));
        } else if j >= hi {
            assert(b[j] == a[j - e]);
            assert(!a.contains(b[i]));
        } else {
            let qi = i - ds.len();
            let qj = j - ds.len();
            assert(b[i] == t.cards[qi].id && b[j] == t.cards[qj].id);
        }
    }
    assert(b.no_duplicates());
}

/// The cards after an import pass the card rules in the library after it.
#[verifier::spinoff_prover]
#[verifier::rlimit(40)]
proof fn lemma_cards_after_import(
    s: SnapshotV,
    t: SnapshotV,
    deck: Seq<char>,
    now: i64,
    changes: Seq<ChangeV>,
    fresh: Seq<Seq<char>>,
)
    requires
        cards_error(s, s.cards.len() as int) is None,
        same_deck_ids(s, t),
        has_deck(t, deck),
        timestamp_ok(now),
        cards_after_ok(s.cards, t.cards, deck, now, changes, fresh, changes.len() as int),
    ensures
        cards_error(t, t.cards.len() as int) is None,
{
    lemma_cards_error_none(s, s.cards.len() as int);
    lemma_cards_error_none(t, t.cards.len() as int);
    assert(schedule_error(unlearned()) is None);
    assert forall|k: int| 0 <= k < t.cards.len() implies (#[trigger] card_error(t, t.cards[k])) is None by {
        let c = t.cards[k];
        if k < s.cards.len() {
            let o = s.cards[k];
            assert(kept_card(o, c));
            assert(card_error(s, o) is None);
            lemma_has_deck_agree(s, t, o.deck_id);
            if c != o {
                assert(content_ok(c));
                assert(!(exists|q: int| 0 <= q < c.choices.len() && blank(c.choices[q].text)));
            }
        } else {
            assert(added_card(c, deck, now));
            assert(!(exists|q: int| 0 <= q < c.choices.len() && blank(c.choices[q].text)));
        }
    }
}

/// Applying the preview of an import keeps a valid library valid, when the
/// deck exists, `now` is a time the library can store, and the cards the
/// import adds get UUIDs that the library does not use and that differ from
/// each other. Every card the import writes passes the card rules, updated
/// cards keep their identity and review state, and added cards start
/// unlearned, so the history still matches every card.
#[verifier::spinoff_prover]
#[verifier::rlimit(60)]
pub proof fn law_import_keeps_validity(
    s: SnapshotV,
    deck: Seq<char>,
    csv: ParsedCsvV,
    m: MappingV,
    now: i64,
    fresh: Seq<Seq<char>>,
)
    requires
        snapshot_valid(s),
        s.revision < i64::MAX,
        deck_pos(s.decks, deck) >= 0,
        timestamp_ok(now),
        forall|k: int|
            0 <= k < preview_of(s, deck, csv, m, now, fresh).changes.len() && preview_of(
                s,
                deck,
                csv,
                m,
                now,
                fresh,
            ).changes[k].before is None ==> spec_uuid_text(#[trigger] fresh[k]) && !all_ids(s).contains(fresh[k]),
        forall|i: int, j: int|
            0 <= i < j < preview_of(s, deck, csv, m, now, fresh).changes.len() && preview_of(
                s,
                deck,
                csv,
                m,
                now,
                fresh,
            ).changes[i].before is None && preview_of(s, deck, csv, m, now, fresh).changes[j].before is None
                ==> #[trigger] fresh[i] != #[trigger] fresh[j],
    ensures
        snapshot_valid(applied(s, preview_of(s, deck, csv, m, now, fresh))),
{
    let p = preview_of(s, deck, csv, m, now, fresh);
    let cols = ascending(m.choices);
    let existing = deck_cards(s, deck);
    let by_id = m.id is Some;
    let rows = group_rows(csv, m, cols, csv.rows.len() as int);
    let groups = rows.groups;
    let merged = merge_groups(groups, existing, by_id, deck, now, fresh, groups.len() as int);
    assert(p.changes == merged.changes);
    let changes = p.changes;
    lemma_group_rows_ok(csv, m, cols, csv.rows.len() as int);
    lemma_cards_error_none(s, s.cards.len() as int);
    let pd = |c: CardV| c.deck_id == deck;
    assert forall|k: int| 0 <= k < existing.len() implies s.cards.contains(#[trigger] existing[k]) by {
        crate::import::lemma_filter_subset(s.cards, pd, k);
    }
    assert forall|k: int| 0 <= k < existing.len() implies ((#[trigger] existing[k]).source_id matches Some(x)
        ==> !blank(x)) by {
        let w = choose|w: int| 0 <= w < s.cards.len() && s.cards[w] == existing[k];
        assert(card_error(s, s.cards[w]) is None);
    }
    lemma_merge_written_ok(groups, existing, by_id, deck, now, fresh, groups.len() as int);
    lemma_ids_distinct(s);
    assert forall|k: int, i: int|
        0 <= k < changes.len() && changes[k].before is None && 0 <= i < s.cards.len() implies #[trigger] fresh[k]
        != #[trigger] s.cards[i].id by {
        assert(all_ids(s)[s.decks.len() + i] == s.cards[i].id);
    }
    lemma_apply_changes_ok(s.cards, changes, existing, deck, now, fresh, changes.len() as int);
    assert(changes.take(changes.len() as int) =~= changes);
    let t = applied(s, p);
    let di = deck_pos(s.decks, deck);
    lemma_first_where_found(s.decks, |d: DeckV| d.id == deck);
    assert(t.cards == apply_changes(s.cards, changes));
    assert(same_deck_ids(s, t));
    // identifiers
    lemma_ids_after_import(s, t, deck, now, changes, fresh);
    // decks
    lemma_decks_error_none(s.decks, s.decks.len() as int);
    lemma_decks_error_none(t.decks, t.decks.len() as int);
    assert forall|k: int| 0 <= k < t.decks.len() implies (#[trigger] deck_error(t.decks[k])) is None by {
        assert(deck_error(s.decks[k]) is None);
    }
    // cards
    assert(t.decks[di].id == deck);
    assert(has_deck(t, deck));
    lemma_cards_after_import(s, t, deck, now, changes, fresh);
    // history
    let n = s.reviews.len() as int;
    lemma_history_extend(s, t, n);
    let h = history(s, n)->Ok_0;
    lemma_history_keys(s, n);
    assert forall|k: int| 0 <= k < t.cards.len() implies latest_of(h, #[trigger] t.cards[k].id) == t.cards[k].schedule by {
        if k < s.cards.len() {
            assert(kept_card(s.cards[k], t.cards[k]));
            assert(latest_of(h, s.cards[k].id) == s.cards[k].schedule);
        } else {
            let c = t.cards[k];
            let j = choose|j: int| 0 <= j < changes.len() && #[trigger] added_at(changes, fresh, j, c.id);
            if h.latest.contains_key(c.id) {
                let q = card_pos(s.cards, c.id);
                lemma_first_where_found(s.cards, |x: CardV| x.id == c.id);
                assert(fresh[j] != s.cards[q].id);
            }
        }
    }
    assert(cards_match_history(t, h));
    // bonuses
    lemma_bonuses_error_limits(s, t, s.bonuses.len() as int);
}

/// The groups read from the first `n` rows have distinct keys.
pub proof fn lemma_group_keys_distinct(csv: ParsedCsvV, m: MappingV, cols: Seq<usize>, n: int)
    ensures
        forall|i: int, j: int|
            0 <= i < j < group_rows(csv, m, cols, n).groups.len() ==> (#[trigger] group_rows(
                csv,
                m,
                cols,
                n,
            ).groups[i]).key != (#[trigger] group_rows(csv, m, cols, n).groups[j]).key,
    decreases n,
{
    if n > 0 {
        lemma_group_keys_distinct(csv, m, cols, n - 1);
        let acc = group_rows(csv, m, cols, n - 1);
        let r = group_rows(csv, m, cols, n);
        assert(r == row_step(acc, csv, m, cols, n - 1));
        let row = csv.rows[n - 1];
        if row.len() == csv.headers.len() {
            let question = row[m.question as int];
            let source_id = match m.id {
                Some(c) => Some(row[c as int]),
                None => None,
            };
            let key = match source_id {
                Some(x) => x,
                None => question,
            };
            let gi = crate::import::group_pos(acc.groups, key);
            if gi >= 0 {
                lemma_first_where_found_groups(acc.groups, key);
                assert forall|i: int, j: int| 0 <= i < j < r.groups.len() implies (#[trigger] r.groups[i]).key
                    != (#[trigger] r.groups[j]).key by {
                    assert(r.groups[i].key == acc.groups[i].key);
                    assert(r.groups[j].key == acc.groups[j].key);
                }
            } else {
                assert forall|i: int| 0 <= i < acc.groups.len() implies (#[trigger] acc.groups[i]).key != key by {
                    if acc.groups[i].key == key {
                        lemma_first_where_some(acc.groups, |g: GroupV| g.key == key, i);
                    }
                }
                assert forall|i: int, j: int| 0 <= i < j < r.groups.len() implies (#[trigger] r.groups[i]).key
                    != (#[trigger] r.groups[j]).key by {
                    assert(r.groups[i] == acc.groups[i]);
                    if j < acc.groups.len() {
                        assert(r.groups[j] == acc.groups[j]);
                    }
                }
            }
        }
    }
}

/// An existing card is matched by at most one key.
proof fn lemma_candidate_one_key(c: CardV, k1: Seq<char>, k2: Seq<char>, by_id: bool)
    requires
        candidate(c, k1, by_id),
        candidate(c, k2, by_id),
    ensures
        k1 == k2,
{
}

/// The `j`-th change updates an existing card that is a candidate of group
/// `g`.
pub open spec fn updates_from(changes: Seq<ChangeV>, groups: Seq<GroupV>, by_id: bool, j: int, g: int) -> bool {
    changes[j].before matches Some(b) && candidate(b, groups[g].key, by_id)
}

/// The changes of the merge update distinct existing cards, each a candidate
/// of one of the first `n` groups.
pub proof fn lemma_merge_updates_distinct(
    groups: Seq<GroupV>,
    existing: Seq<CardV>,
    by_id: bool,
    deck: Seq<char>,
    now: i64,
    fresh: Seq<Seq<char>>,
    n: int,
)
    requires
        0 <= n <= groups.len(),
        forall|i: int, j: int| 0 <= i < j < groups.len() ==> (#[trigger] groups[i]).key != (#[trigger] groups[j]).key,
    ensures
        forall|j: int|
            0 <= j < merge_groups(groups, existing, by_id, deck, now, fresh, n).changes.len() && (
            #[trigger] merge_groups(groups, existing, by_id, deck, now, fresh, n).changes[j]).before is Some
                ==> exists|g: int|
                0 <= g < n && #[trigger] updates_from(
                    merge_groups(groups, existing, by_id, deck, now, fresh, n).changes,
                    groups,
                    by_id,
                    j,
                    g,
                ),
        forall|i: int, j: int|
            0 <= i < j < merge_groups(groups, existing, by_id, deck, now, fresh, n).changes.len() && (
            #[trigger] merge_groups(groups, existing, by_id, deck, now, fresh, n).changes[i]).before is Some && (
            #[trigger] merge_groups(groups, existing, by_id, deck, now, fresh, n).changes[j]).before is Some
                ==> merge_groups(groups, existing, by_id, deck, now, fresh, n).changes[i].before
                != merge_groups(groups, existing, by_id, deck, now, fresh, n).changes[j].before,
    decreases n,
{
    if n > 0 {
        lemma_merge_updates_distinct(groups, existing, by_id, deck, now, fresh, n - 1);
        let acc = merge_groups(groups, existing, by_id, deck, now, fresh, n - 1);
        let mg = merge_groups(groups, existing, by_id, deck, now, fresh, n);
        let g = groups[n - 1];
        assert(mg == merge_step(acc, g, existing, by_id, deck, now, fresh));
        let pred = |c: CardV| candidate(c, g.key, by_id);
        let matches = existing.filter(pred);
        if matches.len() <= 1 {
            let k = acc.changes.len() as int;
            assert forall|q: int| 0 <= q < k implies #[trigger] mg.changes[q] == acc.changes[q] by {}
            if matches.len() == 1 {
                existing.lemma_filter_pred(pred, 0);
                assert(updates_from(mg.changes, groups, by_id, k, n - 1));
            }
            assert forall|j: int|
                0 <= j < mg.changes.len() && (#[trigger] mg.changes[j]).before is Some implies exists|gg: int|
                0 <= gg < n && #[trigger] updates_from(mg.changes, groups, by_id, j, gg) by {
                if j < k {
                    let gg = choose|gg: int| 0 <= gg < n - 1 && #[trigger] updates_from(acc.changes, groups, by_id, j, gg);
                    assert(updates_from(mg.changes, groups, by_id, j, gg));
                }
            }
            assert forall|i: int, j: int|
                0 <= i < j < mg.changes.len() && (#[trigger] mg.changes[i]).before is Some && (
                #[trigger] mg.changes[j]).before is Some implies mg.changes[i].before != mg.changes[j].before by {
                if j == k {
                    let gi = choose|gg: int| 0 <= gg < n - 1 && #[trigger] updates_from(acc.changes, groups, by_id, i, gg);
                    let b = mg.changes[i].before->0;
                    if mg.changes[i].before == mg.changes[j].before {
                        existing.lemma_filter_pred(pred, 0);
                        lemma_candidate_one_key(b, groups[gi].key, g.key, by_id);
                        assert(groups[gi].key != groups[n - 1].key);
                    }
                }
            }
        }
    }
}

/// One change applied: the card with its identifier is its card, and the
/// first card with any other identifier found before stays where it was.
proof fn lemma_place_step(c: Seq<CardV>, a: CardV, id: Seq<char>)
    requires
        id == a.id || card_pos(c, id) >= 0,
    ensures
        card_pos(apply_change(c, a), id) >= 0,
        id == a.id ==> apply_change(c, a)[card_pos(apply_change(c, a), id)] == a,
        id != a.id ==> apply_change(c, a)[card_pos(apply_change(c, a), id)] == c[card_pos(c, id)],
{
    let r = apply_change(c, a);
    let pa = |x: CardV| x.id == a.id;
    let pk = |x: CardV| x.id == id;
    let i = card_pos(c, a.id);
    if i >= 0 {
        lemma_first_where_found(c, pa);
        assert(r == c.update(i, a));
    } else {
        assert forall|q: int| 0 <= q < c.len() implies !pa(#[trigger] c[q]) by {
            if pa(c[q]) {
                lemma_first_where_some(c, pa, q);
            }
        }
        assert(r == c.push(a));
    }
    if id == a.id {
        if i >= 0 {
            assert forall|q: int| 0 <= q < i implies !pa(#[trigger] r[q]) by {
                assert(r[q] == c[q]);
            }
            lemma_first_where_at(r, pa, i);
        } else {
            assert forall|q: int| 0 <= q < c.len() implies !pa(#[trigger] r[q]) by {
                assert(r[q] == c[q]);
            }
            lemma_first_where_at(r, pa, c.len() as int);
        }
    } else {
        let j = card_pos(c, id);
        lemma_first_where_found(c, pk);
        if i >= 0 {
            assert(j != i);
        }
        assert(r[j] == c[j]);
        assert forall|q: int| 0 <= q < j implies !pk(#[trigger] r[q]) by {
            assert(!pk(c[q]));
            if i >= 0 && q == i {
                assert(r[q] == a);
            } else {
                assert(r[q] == c[q]);
            }
        }
        lemma_first_where_at(r, pk, j);
    }
}

/// After the first `n` changes are applied, where the cards they wrote are
/// found: when the changes write distinct identifiers, the first card with
/// each change's identifier is that change's card.
#[verifier::spinoff_prover]
pub proof fn lemma_apply_places(old: Seq<CardV>, changes: Seq<ChangeV>, n: int)
    requires
        0 <= n <= changes.len(),
        forall|i: int, j: int|
            0 <= i < j < changes.len() ==> (#[trigger] changes[i]).after.id != (#[trigger] changes[j]).after.id,
    ensures
        forall|k: int|
            0 <= k < n ==> card_pos(apply_changes(old, changes.take(n)), (#[trigger] changes[k]).after.id) >= 0
                && apply_changes(old, changes.take(n))[card_pos(apply_changes(old, changes.take(n)), changes[k].after.id)]
                == changes[k].after,
    decreases n,
{
    if n > 0 {
        lemma_apply_places(old, changes, n - 1);
        let c = apply_changes(old, changes.take(n - 1));
        assert(changes.take(n).drop_last() =~= changes.take(n - 1));
        assert(changes.take(n).last() == changes[n - 1]);
        let a = changes[n - 1].after;
        let r = apply_changes(old, changes.take(n));
        assert(r == apply_change(c, a));
        assert forall|k: int| 0 <= k < n implies card_pos(r, (#[trigger] changes[k]).after.id) >= 0
            && r[card_pos(r, changes[k].after.id)] == changes[k].after by {
            lemma_place_step(c, a, changes[k].after.id);
        }
    }
}

/// Where an import puts the cards it writes: in a valid library, when the
/// deck exists, `now` is a time the library can store and the added cards get
/// unused, distinct UUIDs, applying the preview leaves, for each change,
/// exactly one card with the change's identifier, and that card is the
/// change's card; the deck records the column assignment. (Every other card,
/// the history, the bonuses and the settings stay as they were:
/// `law_import_keeps_history`.)
#[verifier::spinoff_prover]
#[verifier::rlimit(60)]
pub proof fn law_import_places_cards(
    s: SnapshotV,
    deck: Seq<char>,
    csv: ParsedCsvV,
    m: MappingV,
    now: i64,
    fresh: Seq<Seq<char>>,
)
    requires
        snapshot_valid(s),
        s.revision < i64::MAX,
        deck_pos(s.decks, deck) >= 0,
        timestamp_ok(now),
        forall|k: int|
            0 <= k < preview_of(s, deck, csv, m, now, fresh).changes.len() && preview_of(
                s,
                deck,
                csv,
                m,
                now,
                fresh,
            ).changes[k].before is None ==> spec_uuid_text(#[trigger] fresh[k]) && !all_ids(s).contains(fresh[k]),
        forall|i: int, j: int|
            0 <= i < j < preview_of(s, deck, csv, m, now, fresh).changes.len() && preview_of(
                s,
                deck,
                csv,
                m,
                now,
                fresh,
            ).changes[i].before is None && preview_of(s, deck, csv, m, now, fresh).changes[j].before is None
                ==> #[trigger] fresh[i] != #[trigger] fresh[j],
    ensures
        forall|k: int|
            0 <= k < preview_of(s, deck, csv, m, now, fresh).changes.len() ==> {
                let t = applied(s, preview_of(s, deck, csv, m, now, fresh));
                let a = (#[trigger] preview_of(s, deck, csv, m, now, fresh).changes[k]).after;
                &&& card_pos(t.cards, a.id) >= 0
                &&& t.cards[card_pos(t.cards, a.id)] == a
                &&& forall|q: int| 0 <= q < t.cards.len() && t.cards[q].id == a.id ==> q == card_pos(t.cards, a.id)
            },
        applied(s, preview_of(s, deck, csv, m, now, fresh)).decks[deck_pos(s.decks, deck)].mapping == Some(m),
{
    let p = preview_of(s, deck, csv, m, now, fresh);
    let cols = ascending(m.choices);
    let existing = deck_cards(s, deck);
    let by_id = m.id is Some;
    let rows = group_rows(csv, m, cols, csv.rows.len() as int);
    let groups = rows.groups;
    let merged = merge_groups(groups, existing, by_id, deck, now, fresh, groups.len() as int);
    assert(p.changes == merged.changes);
    let changes = p.changes;
    law_import_keeps_validity(s, deck, csv, m, now, fresh);
    let t = applied(s, p);
    lemma_ids_distinct(s);
    lemma_ids_distinct(t);
    lemma_group_rows_ok(csv, m, cols, csv.rows.len() as int);
    lemma_group_keys_distinct(csv, m, cols, csv.rows.len() as int);
    lemma_cards_error_none(s, s.cards.len() as int);
    let pd = |c: CardV| c.deck_id == deck;
    assert forall|k: int| 0 <= k < existing.len() implies s.cards.contains(#[trigger] existing[k]) by {
        crate::import::lemma_filter_subset(s.cards, pd, k);
    }
    assert forall|k: int| 0 <= k < existing.len() implies ((#[trigger] existing[k]).source_id matches Some(x)
        ==> !blank(x)) by {
        let w = choose|w: int| 0 <= w < s.cards.len() && s.cards[w] == existing[k];
        assert(card_error(s, s.cards[w]) is None);
    }
    lemma_merge_written_ok(groups, existing, by_id, deck, now, fresh, groups.len() as int);
    lemma_merge_updates_distinct(groups, existing, by_id, deck, now, fresh, groups.len() as int);
    assert forall|i: int, j: int| 0 <= i < j < changes.len() implies (#[trigger] changes[i]).after.id
        != (#[trigger] changes[j]).after.id by {
        assert(written_ok(changes[i], i, existing, deck, now, fresh));
        assert(written_ok(changes[j], j, existing, deck, now, fresh));
        match (changes[i].before, changes[j].before) {
            (Some(bi), Some(bj)) => {
                let wi = choose|w: int| 0 <= w < existing.len() && existing[w] == bi;
                let wj = choose|w: int| 0 <= w < existing.len() && existing[w] == bj;
                assert(s.cards.contains(existing[wi]));
                assert(s.cards.contains(existing[wj]));
                let xi = choose|x: int| 0 <= x < s.cards.len() && s.cards[x] == bi;
                let xj = choose|x: int| 0 <= x < s.cards.len() && s.cards[x] == bj;
                assert(bi != bj);
                assert(xi != xj);
            },
            (Some(bi), None) => {
                let wi = choose|w: int| 0 <= w < existing.len() && existing[w] == bi;
                assert(s.cards.contains(existing[wi]));
                let xi = choose|x: int| 0 <= x < s.cards.len() && s.cards[x] == bi;
                assert(all_ids(s)[s.decks.len() + xi] == s.cards[xi].id);
            },
            (None, Some(bj)) => {
                let wj = choose|w: int| 0 <= w < existing.len() && existing[w] == bj;
                assert(s.cards.contains(existing[wj]));
                let xj = choose|x: int| 0 <= x < s.cards.len() && s.cards[x] == bj;
                assert(all_ids(s)[s.decks.len() + xj] == s.cards[xj].id);
            },
            (None, None) => {},
        }
    }
    lemma_apply_places(s.cards, changes, changes.len() as int);
    assert(changes.take(changes.len() as int) =~= changes);
    assert(t.cards == apply_changes(s.cards, changes));
    assert forall|k: int| 0 <= k < changes.len() implies {
        let a = (#[trigger] changes[k]).after;
        &&& card_pos(t.cards, a.id) >= 0
        &&& t.cards[card_pos(t.cards, a.id)] == a
        &&& forall|q: int| 0 <= q < t.cards.len() && t.cards[q].id == a.id ==> q == card_pos(t.cards, a.id)
    } by {
        let a = changes[k].after;
        let w = card_pos(t.cards, a.id);
        lemma_first_where_found(t.cards, |x: CardV| x.id == a.id);
        assert forall|q: int| 0 <= q < t.cards.len() && t.cards[q].id == a.id implies q == w by {
            if q != w {
                assert(t.cards[q].id != t.cards[w].id);
            }
        }
    }
    lemma_first_where_found(s.decks, |d: DeckV| d.id == deck);
}

} // verus!

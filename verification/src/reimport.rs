//! Importing the same CSV again right after it was applied changes nothing:
//! every group of rows finds exactly the card the first import wrote for it,
//! and the preview describes each card as unchanged.
use vstd::prelude::*;
use crate::model::{SnapshotV, CardV, ChangeV, ParsedCsvV, MappingV, DeckV, card_pos, deck_pos};
use crate::import::{
    GroupV, RowsV, group_rows, row_step, merge_groups, merge_step, merged_card, blank_card, candidate, preview_of,
    ascending, deck_cards,
};
use crate::library::{applied, apply_changes};
use crate::storage::{snapshot_valid, timestamp_ok, all_ids};
use crate::ids::spec_uuid_text;
use crate::import_validity::{
    written_ok, lemma_group_keys_distinct, lemma_merge_written_ok, lemma_group_rows_ok, law_import_places_cards,
};

verus! {

/// The key of every group read with an ID column is its ID, and otherwise its
/// question.
pub proof fn lemma_group_key_shape(csv: ParsedCsvV, m: MappingV, cols: Seq<usize>, n: int)
    ensures
        forall|k: int|
            0 <= k < group_rows(csv, m, cols, n).groups.len() ==> {
                let g = #[trigger] group_rows(csv, m, cols, n).groups[k];
                &&& m.id is Some ==> g.source_id == Some(g.key)
                &&& m.id is None ==> g.question == g.key
            },
    decreases n,
{
    if n > 0 {
        lemma_group_key_shape(csv, m, cols, n - 1);
        let acc = group_rows(csv, m, cols, n - 1);
        let r = group_rows(csv, m, cols, n);
        assert(r == row_step(acc, csv, m, cols, n - 1));
        assert forall|k: int| 0 <= k < r.groups.len() implies {
            let g = #[trigger] r.groups[k];
            &&& m.id is Some ==> g.source_id == Some(g.key)
            &&& m.id is None ==> g.question == g.key
        } by {
            if k < acc.groups.len() {
                assert(r.groups[k].key == acc.groups[k].key);
                assert(r.groups[k].question == acc.groups[k].question);
                assert(r.groups[k].source_id == acc.groups[k].source_id);
            }
        }
    }
}

/// A merge without errors makes one change per group: the `i`-th change comes
/// from the `i`-th group, updating its only candidate or adding a card.
pub proof fn lemma_merge_one_per_group(
    groups: Seq<GroupV>,
    existing: Seq<CardV>,
    by_id: bool,
    deck: Seq<char>,
    now: i64,
    fresh: Seq<Seq<char>>,
    n: int,
)
    requires
        0 <= n <= groups.len(),
        merge_groups(groups, existing, by_id, deck, now, fresh, n).errors.len() == 0,
    ensures
        merge_groups(groups, existing, by_id, deck, now, fresh, n).changes.len() == n,
        forall|i: int|
            0 <= i < n ==> {
                let ch = #[trigger] merge_groups(groups, existing, by_id, deck, now, fresh, n).changes[i];
                let ms = existing.filter(|c: CardV| candidate(c, groups[i].key, by_id));
                &&& ms.len() <= 1
                &&& ch.before == (if ms.len() == 1 {
                    Some(ms[0])
                } else {
                    None::<CardV>
                })
                &&& ch.after == merged_card(
                    match ch.before {
                        Some(c) => c,
                        None => blank_card(fresh[i], deck, now),
                    },
                    groups[i],
                    by_id,
                )
            },
    decreases n,
{
    if n > 0 {
        let acc = merge_groups(groups, existing, by_id, deck, now, fresh, n - 1);
        let mg = merge_groups(groups, existing, by_id, deck, now, fresh, n);
        assert(mg == merge_step(acc, groups[n - 1], existing, by_id, deck, now, fresh));
        let ms = existing.filter(|c: CardV| candidate(c, groups[n - 1].key, by_id));
        assert(ms.len() <= 1);
        assert(acc.errors.len() == 0);
        lemma_merge_one_per_group(groups, existing, by_id, deck, now, fresh, n - 1);
        assert forall|i: int| 0 <= i < n - 1 implies #[trigger] mg.changes[i] == acc.changes[i] by {}
    }
}

/// A sequence in which exactly one element passes the test filters to that
/// element.
pub proof fn lemma_filter_single<A>(a: Seq<A>, p: spec_fn(A) -> bool, w: int)
    requires
        0 <= w < a.len(),
        p(a[w]),
        forall|q: int| 0 <= q < a.len() && q != w ==> !p(#[trigger] a[q]),
    ensures
        a.filter(p) =~= seq![a[w]],
    decreases a.len(),
{
    reveal(Seq::filter);
    let b = a.drop_last();
    if w == a.len() - 1 {
        assert forall|q: int| 0 <= q < b.len() implies !p(#[trigger] b[q]) by {
            assert(b[q] == a[q]);
        }
        lemma_filter_none(b, p);
    } else {
        assert forall|q: int| 0 <= q < b.len() && q != w implies !p(#[trigger] b[q]) by {
            assert(b[q] == a[q]);
        }
        assert(b[w] == a[w]);
        lemma_filter_single(b, p, w);
        assert(!p(a.last()));
    }
}

/// A sequence in which no element passes the test filters to nothing.
pub proof fn lemma_filter_none<A>(a: Seq<A>, p: spec_fn(A) -> bool)
    requires
        forall|q: int| 0 <= q < a.len() ==> !p(#[trigger] a[q]),
    ensures
        a.filter(p) =~= Seq::<A>::empty(),
    decreases a.len(),
{
    reveal(Seq::filter);
    if a.len() > 0 {
        let b = a.drop_last();
        assert forall|q: int| 0 <= q < b.len() implies !p(#[trigger] b[q]) by {
            assert(b[q] == a[q]);
        }
        lemma_filter_none(b, p);
    }
}

/// Putting a group's content into a card that already holds it changes nothing.
pub proof fn lemma_merged_card_again(base: CardV, g: GroupV, by_id: bool)
    ensures
        merged_card(merged_card(base, g, by_id), g, by_id) == merged_card(base, g, by_id),
{
}

/// The change made from group `j` of a merge without errors.
pub open spec fn from_group(
    ch: ChangeV,
    groups: Seq<GroupV>,
    existing: Seq<CardV>,
    by_id: bool,
    deck: Seq<char>,
    now: i64,
    fresh: Seq<Seq<char>>,
    j: int,
) -> bool {
    let ms = existing.filter(|c: CardV| candidate(c, groups[j].key, by_id));
    &&& ms.len() <= 1
    &&& ch.before == (if ms.len() == 1 {
        Some(ms[0])
    } else {
        None::<CardV>
    })
    &&& ch.after == merged_card(
        match ch.before {
            Some(c) => c,
            None => blank_card(fresh[j], deck, now),
        },
        groups[j],
        by_id,
    )
}

/// After an import without errors, a card of the deck that is a candidate of
/// group `i` carries the identifier of the card written for that group.
#[verifier::spinoff_prover]
#[verifier::rlimit(60)]
proof fn lemma_sole_candidate(
    old: Seq<CardV>,
    cards: Seq<CardV>,
    changes: Seq<ChangeV>,
    groups: Seq<GroupV>,
    existing: Seq<CardV>,
    by_id: bool,
    deck: Seq<char>,
    now: i64,
    fresh: Seq<Seq<char>>,
    i: int,
    x: int,
)
    requires
        existing == old.filter(|c: CardV| c.deck_id == deck),
        changes.len() == groups.len(),
        forall|j: int| 0 <= j < changes.len() ==> written_ok(#[trigger] changes[j], j, existing, deck, now, fresh),
        forall|j: int|
            0 <= j < changes.len() ==> from_group(#[trigger] changes[j], groups, existing, by_id, deck, now, fresh, j),
        forall|a: int, b: int| 0 <= a < b < groups.len() ==> (#[trigger] groups[a]).key != (#[trigger] groups[b]).key,
        forall|j: int|
            0 <= j < groups.len() ==> (by_id ==> (#[trigger] groups[j]).source_id == Some(groups[j].key)) && (!by_id
                ==> groups[j].question == groups[j].key),
        crate::import_validity::cards_after_ok(old, cards, deck, now, changes, fresh, changes.len() as int),
        forall|j: int|
            0 <= j < changes.len() ==> card_pos(cards, (#[trigger] changes[j]).after.id) >= 0 && cards[card_pos(
                cards,
                changes[j].after.id,
            )] == changes[j].after,
        forall|a: int, b: int| 0 <= a < cards.len() && 0 <= b < cards.len() && a != b ==> #[trigger] cards[a].id
            != #[trigger] cards[b].id,
        forall|y: int|
            0 <= y < old.len() && (forall|j: int| 0 <= j < changes.len() ==> (#[trigger] changes[j]).after.id
                != cards[y].id) ==> #[trigger] cards[y] == old[y],
        0 <= i < groups.len(),
        0 <= x < cards.len(),
        cards[x].deck_id == deck,
        candidate(cards[x], groups[i].key, by_id),
    ensures
        cards[x].id == changes[i].after.id,
{
    let c = cards[x];
    if exists|j: int| 0 <= j < changes.len() && (#[trigger] changes[j]).after.id == c.id {
        let j = choose|j: int| 0 <= j < changes.len() && (#[trigger] changes[j]).after.id == c.id;
        let pj = card_pos(cards, changes[j].after.id);
        assert(cards[pj].id == c.id);
        assert(pj == x);
        assert(c == changes[j].after);
        assert(from_group(changes[j], groups, existing, by_id, deck, now, fresh, j));
        assert(candidate(c, groups[j].key, by_id));
        if j != i {
            if j < i {
                assert(groups[j].key != groups[i].key);
            } else {
                assert(groups[i].key != groups[j].key);
            }
        }
    } else {
        if x >= old.len() {
            assert(crate::import_validity::added_card(c, deck, now));
            let j = choose|j: int| 0 <= j < changes.len() && #[trigger] crate::import_validity::added_at(changes, fresh, j, c.id);
            assert(written_ok(changes[j], j, existing, deck, now, fresh));
            assert(changes[j].after.id == c.id);
        }
        assert(x < old.len());
        assert(forall|j: int| 0 <= j < changes.len() ==> (#[trigger] changes[j]).after.id != cards[x].id);
        assert(cards[x] == old[x]);
        let pd = |cc: CardV| cc.deck_id == deck;
        old.lemma_filter_contains(pd, x);
        let e = choose|e: int| 0 <= e < existing.len() && existing[e] == old[x];
        let pk = |cc: CardV| candidate(cc, groups[i].key, by_id);
        existing.lemma_filter_contains(pk, e);
        let ms = existing.filter(pk);
        assert(from_group(changes[i], groups, existing, by_id, deck, now, fresh, i));
        assert(ms.contains(c));
        assert(ms.len() == 1);
        assert(ms[0] == c);
        assert(changes[i].before == Some(c));
        assert(written_ok(changes[i], i, existing, deck, now, fresh));
        assert(changes[i].after.id == c.id);
    }
}

/// A merge in which every group's only candidate is a card that already holds
/// the group's content makes one unchanged change per group and no error.
pub proof fn lemma_merge_all_matched(
    groups: Seq<GroupV>,
    existing: Seq<CardV>,
    by_id: bool,
    deck: Seq<char>,
    now: i64,
    fresh: Seq<Seq<char>>,
    targets: Seq<CardV>,
    n: int,
)
    requires
        0 <= n <= groups.len(),
        targets.len() == groups.len(),
        forall|i: int|
            0 <= i < groups.len() ==> existing.filter(|c: CardV| candidate(c, (#[trigger] groups[i]).key, by_id))
                == seq![targets[i]],
        forall|i: int| 0 <= i < groups.len() ==> merged_card(#[trigger] targets[i], groups[i], by_id) == targets[i],
    ensures
        merge_groups(groups, existing, by_id, deck, now, fresh, n).errors.len() == 0,
        merge_groups(groups, existing, by_id, deck, now, fresh, n).changes.len() == n,
        forall|i: int|
            0 <= i < n ==> {
                let ch = #[trigger] merge_groups(groups, existing, by_id, deck, now, fresh, n).changes[i];
                &&& ch.before == Some(targets[i])
                &&& ch.after == targets[i]
                &&& ch.kind == "unchanged"@
            },
    decreases n,
{
    if n > 0 {
        lemma_merge_all_matched(groups, existing, by_id, deck, now, fresh, targets, n - 1);
        let acc = merge_groups(groups, existing, by_id, deck, now, fresh, n - 1);
        let mg = merge_groups(groups, existing, by_id, deck, now, fresh, n);
        let g = groups[n - 1];
        assert(mg == merge_step(acc, g, existing, by_id, deck, now, fresh));
        let ms = existing.filter(|c: CardV| candidate(c, g.key, by_id));
        assert(ms == seq![targets[n - 1]]);
        assert(ms.len() == 1);
        assert forall|i: int| 0 <= i < n - 1 implies #[trigger] mg.changes[i] == acc.changes[i] by {}
    }
}

/// Importing the same CSV with the same column assignment again, right after
/// an import without issues was applied, changes nothing: in a valid library,
/// when the deck exists, `now` is a time the library can store and the added
/// cards got unused, distinct UUIDs, the second preview has no issue and, for
/// each change of the first, a change that finds the card the first one wrote
/// and leaves it as it is ("unchanged").
#[verifier::spinoff_prover]
#[verifier::rlimit(100)]
pub proof fn law_reimport_is_unchanged(
    s: SnapshotV,
    deck: Seq<char>,
    csv: ParsedCsvV,
    m: MappingV,
    now: i64,
    fresh: Seq<Seq<char>>,
    now2: i64,
    fresh2: Seq<Seq<char>>,
)
    requires
        snapshot_valid(s),
        s.revision < i64::MAX,
        deck_pos(s.decks, deck) >= 0,
        timestamp_ok(now),
        preview_of(s, deck, csv, m, now, fresh).errors.len() == 0,
        forall|k: int|
            0 <= k < preview_of(s, deck, csv, m, now, fresh).changes.len() && preview_of(
                s,
                deck,
                csv,
                m,
                now,
                fresh,
            ).changes[k].before is None ==> spec_uuid_text(#[trigger] fresh[k]) && !all_ids(s).contains(fresh[k]),
        forall|i: int, j: int|
            0 <= i < j < preview_of(s, deck, csv, m, now, fresh).changes.len() && preview_of(
                s,
                deck,
                csv,
                m,
                now,
                fresh,
            ).changes[i].before is None && preview_of(s, deck, csv, m, now, fresh).changes[j].before is None
                ==> #[trigger] fresh[i] != #[trigger] fresh[j],
    ensures
        ({
            let p1 = preview_of(s, deck, csv, m, now, fresh);
            let p2 = preview_of(applied(s, p1), deck, csv, m, now2, fresh2);
            &&& p2.errors.len() == 0
            &&& p2.changes.len() == p1.changes.len()
            &&& forall|k: int|
                0 <= k < p2.changes.len() ==> (#[trigger] p2.changes[k]).before == Some(p1.changes[k].after)
                    && p2.changes[k].after == p1.changes[k].after && p2.changes[k].kind == "unchanged"@
        }),
{
    let p1 = preview_of(s, deck, csv, m, now, fresh);
    let t = applied(s, p1);
    let p2 = preview_of(t, deck, csv, m, now2, fresh2);
    let cols = ascending(m.choices);
    let by_id = m.id is Some;
    let rows = group_rows(csv, m, cols, csv.rows.len() as int);
    let groups = rows.groups;
    let gl = groups.len() as int;
    let existing = deck_cards(s, deck);
    let merged = merge_groups(groups, existing, by_id, deck, now, fresh, gl);
    assert(p1.changes == merged.changes);
    assert(p1.errors == rows.errors + merged.errors);
    assert(merged.errors.len() == 0);
    let changes = p1.changes;
    lemma_merge_one_per_group(groups, existing, by_id, deck, now, fresh, gl);
    assert forall|j: int| 0 <= j < changes.len() implies from_group(
        #[trigger] changes[j],
        groups,
        existing,
        by_id,
        deck,
        now,
        fresh,
        j,
    ) by {
        assert(changes[j] == merged.changes[j]);
    }
    lemma_group_keys_distinct(csv, m, cols, csv.rows.len() as int);
    lemma_group_key_shape(csv, m, cols, csv.rows.len() as int);
    // what the first import wrote
    lemma_group_rows_ok(csv, m, cols, csv.rows.len() as int);
    crate::validity::lemma_cards_error_none(s, s.cards.len() as int);
    let pd = |c: CardV| c.deck_id == deck;
    assert forall|k: int| 0 <= k < existing.len() implies s.cards.contains(#[trigger] existing[k]) by {
        crate::import::lemma_filter_subset(s.cards, pd, k);
    }
    assert forall|k: int| 0 <= k < existing.len() implies ((#[trigger] existing[k]).source_id matches Some(x)
        ==> !crate::text::blank(x)) by {
        let w = choose|w: int| 0 <= w < s.cards.len() && s.cards[w] == existing[k];
        assert(crate::storage::card_error(s, s.cards[w]) is None);
    }
    lemma_merge_written_ok(groups, existing, by_id, deck, now, fresh, gl);
    crate::validity::lemma_ids_distinct(s);
    assert forall|k: int, i: int|
        0 <= k < changes.len() && changes[k].before is None && 0 <= i < s.cards.len() implies #[trigger] fresh[k]
        != #[trigger] s.cards[i].id by {
        assert(all_ids(s)[s.decks.len() + i] == s.cards[i].id);
    }
    crate::import_validity::lemma_apply_changes_ok(s.cards, changes, existing, deck, now, fresh, changes.len() as int);
    assert(changes.take(changes.len() as int) =~= changes);
    assert(t.cards == apply_changes(s.cards, changes));
    law_import_places_cards(s, deck, csv, m, now, fresh);
    crate::import_validity::law_import_keeps_validity(s, deck, csv, m, now, fresh);
    crate::validity::lemma_ids_distinct(t);
    assert forall|y: int|
        0 <= y < s.cards.len() && (forall|j: int| 0 <= j < changes.len() ==> (#[trigger] changes[j]).after.id
            != t.cards[y].id) implies #[trigger] t.cards[y] == s.cards[y] by {
        assert(crate::import_validity::kept_card(s.cards[y], t.cards[y]));
        crate::laws::lemma_apply_changes_keeps(s.cards, changes, y);
    }
    // what the second preview finds
    let existing2 = deck_cards(t, deck);
    crate::validity::lemma_kept_pos(t.cards, pd);
    let targets = Seq::new(gl as nat, |i: int| changes[i].after);
    assert forall|i: int| 0 <= i < gl implies existing2.filter(|c: CardV| candidate(c, (#[trigger] groups[i]).key, by_id))
        == seq![targets[i]] by {
        let a = changes[i].after;
        assert(targets[i] == a);
        let pos = card_pos(t.cards, a.id);
        assert(t.cards[pos] == a);
        assert(written_ok(changes[i], i, existing, deck, now, fresh));
        if let Some(b) = changes[i].before {
            let e = choose|e: int| 0 <= e < existing.len() && existing[e] == b;
            s.cards.lemma_filter_pred(pd, e);
        }
        assert(a.deck_id == deck);
        t.cards.lemma_filter_contains(pd, pos);
        let w = choose|w: int| 0 <= w < existing2.len() && existing2[w] == a;
        let pk = |c: CardV| candidate(c, groups[i].key, by_id);
        assert(from_group(changes[i], groups, existing, by_id, deck, now, fresh, i));
        assert(pk(a));
        assert forall|q: int| 0 <= q < existing2.len() && q != w implies !pk(#[trigger] existing2[q]) by {
            let x = crate::validity::kept_pos(t.cards, pd, q);
            let xw = crate::validity::kept_pos(t.cards, pd, w);
            if pk(existing2[q]) {
                assert(t.cards[x] == existing2[q]);
                lemma_sole_candidate(s.cards, t.cards, changes, groups, existing, by_id, deck, now, fresh, i, x);
                assert(t.cards[xw] == a);
                if q < w {
                    assert(x < xw);
                } else {
                    assert(xw < x);
                }
                assert(t.cards[x].id != t.cards[xw].id);
            }
        }
        lemma_filter_single(existing2, pk, w);
    }
    assert forall|i: int| 0 <= i < gl implies merged_card(#[trigger] targets[i], groups[i], by_id) == targets[i] by {
        assert(from_group(changes[i], groups, existing, by_id, deck, now, fresh, i));
        lemma_merged_card_again(
            match changes[i].before {
                Some(c) => c,
                None => blank_card(fresh[i], deck, now),
            },
            groups[i],
            by_id,
        );
    }
    lemma_merge_all_matched(groups, existing2, by_id, deck, now2, fresh2, targets, gl);
    let merged2 = merge_groups(groups, existing2, by_id, deck, now2, fresh2, gl);
    assert(p2.changes == merged2.changes);
    assert(p2.errors == rows.errors + merged2.errors);
}

} // verus!

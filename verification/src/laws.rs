//! Properties of the library that span several operations: what undoing a
//! grade gives back, what a re-import keeps of the cards and their history,
//! why an outdated preview or training result cannot be applied, and what
//! adopting trained parameters leaves alone, and what a backup gives back.
use vstd::prelude::*;
use crate::model::{
    SnapshotV, CardV, ChangeV, MappingV, ParsedCsvV, unlearned, card_pos, deck_pos, lemma_first_where_at,
    lemma_first_where_found,
};
use crate::learning::{graded, undone, configured, bonus_added, NextMemory};
use crate::import::{GroupV, merge_groups, merge_step, preview_of, written_ids, deck_cards};
use crate::library::{applied, apply_change, apply_changes, without_deck, deck_added};
use crate::learning::{settings_changed, edited};
use crate::analytics::parameters_applied;
use crate::service::{JobV, JobStatus, job_cancelled, job_finished, job_result};

verus! {

/// Undoing a grade right after it gives back the library as it was before
/// the grade (cards, review history, decks, bonuses and settings); only the
/// revision has moved on, by one for each of the two changes.
pub proof fn law_undo_restores_grade(
    s: SnapshotV,
    id: Seq<char>,
    rating: u32,
    now: i64,
    next: NextMemory,
    fresh: Seq<char>,
)
    requires
        s.revision < u64::MAX - 1,
        graded(s, id, rating, now, next, fresh) is Ok,
    ensures
        undone(graded(s, id, rating, now, next, fresh)->Ok_0) == Ok::<SnapshotV, Seq<char>>(
            SnapshotV { revision: (s.revision + 2) as u64, ..s },
        ),
{
    let t = graded(s, id, rating, now, next, fresh)->Ok_0;
    let ci = card_pos(s.cards, id);
    lemma_first_where_found(s.cards, |c: CardV| c.id == id);
    assert(t.cards[ci].id == id);
    assert forall|k: int| 0 <= k < ci implies !(t.cards[k].id == id) by {
        assert(t.cards[k] == s.cards[k]);
    }
    lemma_first_where_at(t.cards, |c: CardV| c.id == id, ci);
    let r = t.reviews.last();
    assert(r.card_id == id);
    assert(card_pos(t.cards, r.card_id) == ci);
    assert(t.cards[ci].schedule == r.after);
    let u = undone(t)->Ok_0;
    assert(u.cards =~= s.cards);
    assert(u.reviews =~= s.reviews);
}

/// What re-importing keeps of a card: a change that updates an existing card
/// writes a card with that card's identifier, deck, creation time and review
/// state; a change that adds a card adds an unlearned card of the deck.
pub open spec fn keeps_identity(ch: ChangeV, deck: Seq<char>, now: i64) -> bool {
    match ch.before {
        Some(b) => ch.after.id == b.id && ch.after.deck_id == b.deck_id && ch.after.created_at == b.created_at
            && ch.after.schedule == b.schedule,
        None => ch.after.deck_id == deck && ch.after.created_at == now && ch.after.schedule == unlearned(),
    }
}

proof fn lemma_merge_keeps_identity(
    groups: Seq<GroupV>,
    existing: Seq<CardV>,
    by_id: bool,
    deck: Seq<char>,
    now: i64,
    fresh: Seq<Seq<char>>,
    n: int,
)
    ensures
        forall|k: int|
            0 <= k < merge_groups(groups, existing, by_id, deck, now, fresh, n).changes.len() ==> keeps_identity(
                #[trigger] merge_groups(groups, existing, by_id, deck, now, fresh, n).changes[k],
                deck,
                now,
            ),
    decreases n,
{
    if n > 0 {
        lemma_merge_keeps_identity(groups, existing, by_id, deck, now, fresh, n - 1);
        let acc = merge_groups(groups, existing, by_id, deck, now, fresh, n - 1);
        let m = merge_groups(groups, existing, by_id, deck, now, fresh, n);
        assert(m == merge_step(acc, groups[n - 1], existing, by_id, deck, now, fresh));
        assert forall|k: int| 0 <= k < m.changes.len() implies keeps_identity(#[trigger] m.changes[k], deck, now) by {
            if k < acc.changes.len() {
                assert(m.changes[k] == acc.changes[k]);
            }
        }
    }
}

/// Re-importing a CSV into a deck never gives an existing card another
/// identity or another review state, and cards it adds start unlearned.
pub proof fn law_reimport_keeps_identity(
    s: SnapshotV,
    deck: Seq<char>,
    csv: ParsedCsvV,
    m: MappingV,
    now: i64,
    fresh: Seq<Seq<char>>,
)
    ensures
        forall|k: int|
            0 <= k < preview_of(s, deck, csv, m, now, fresh).changes.len() ==> keeps_identity(
                #[trigger] preview_of(s, deck, csv, m, now, fresh).changes[k],
                deck,
                now,
            ),
{
    let cols = crate::import::ascending(m.choices);
    let rows = crate::import::group_rows(csv, m, cols, csv.rows.len() as int);
    lemma_merge_keeps_identity(
        rows.groups,
        deck_cards(s, deck),
        m.id is Some,
        deck,
        now,
        fresh,
        rows.groups.len() as int,
    );
}

pub proof fn lemma_apply_changes_keeps(cards: Seq<CardV>, changes: Seq<ChangeV>, k: int)
    requires
        0 <= k < cards.len(),
        forall|j: int| 0 <= j < changes.len() ==> (#[trigger] changes[j]).after.id != cards[k].id,
    ensures
        apply_changes(cards, changes).len() >= cards.len(),
        apply_changes(cards, changes)[k] == cards[k],
    decreases changes.len(),
{
    if changes.len() > 0 {
        let rest = changes.drop_last();
        assert forall|j: int| 0 <= j < rest.len() implies (#[trigger] rest[j]).after.id != cards[k].id by {
            assert(rest[j] == changes[j]);
        }
        lemma_apply_changes_keeps(cards, rest, k);
        let c = apply_changes(cards, rest);
        let after = changes.last().after;
        assert(after.id != cards[k].id);
        let i = card_pos(c, after.id);
        if i >= 0 {
            lemma_first_where_found(c, |x: CardV| x.id == after.id);
            assert(i != k);
        }
        assert(apply_changes(cards, changes) == apply_change(c, after));
    }
}

/// Applying an import never touches the review history, the daily bonuses or
/// the settings, and every card it does not write stays where it was, as it was.
pub proof fn law_import_keeps_history(s: SnapshotV, p: crate::model::ImportPreviewV, k: int)
    requires
        0 <= k < s.cards.len(),
        !written_ids(p).contains(s.cards[k].id),
    ensures
        applied(s, p).reviews == s.reviews,
        applied(s, p).bonuses == s.bonuses,
        applied(s, p).settings == s.settings,
        applied(s, p).cards.len() >= s.cards.len(),
        applied(s, p).cards[k] == s.cards[k],
{
    assert forall|j: int| 0 <= j < p.changes.len() implies (#[trigger] p.changes[j]).after.id != s.cards[k].id by {
        assert(written_ids(p)[j] == p.changes[j].after.id);
    }
    lemma_apply_changes_keeps(s.cards, p.changes, k);
}

/// Every successful change of the library moves its revision on by one:
/// grading, undoing, deck settings, raised limits, applying an import,
/// adopting parameters, new settings, adding, deleting or editing, and a
/// restore (which lands on the revision after the one it replaces). A preview
/// or a training result made from the library before the change records an
/// older revision, which `apply_import` and `apply_parameters` refuse, leaving
/// the library as it is; so a stale preview never reverts newer data.
pub proof fn law_changes_move_revision(
    s: SnapshotV,
    id: Seq<char>,
    rating: u32,
    now: i64,
    next: NextMemory,
    retention: u32,
    new_limit: u32,
    review_limit: Option<u32>,
    new: u32,
    review: u32,
    fresh: Seq<char>,
    p: crate::model::ImportPreviewV,
    parameters: Seq<u32>,
    settings: crate::model::SettingsV,
    name: Seq<char>,
    question: Seq<char>,
    answer: Seq<char>,
    explanation: Seq<char>,
    choices: Option<Seq<crate::model::ChoiceV>>,
    backup: SnapshotV,
)
    requires
        s.revision < u64::MAX,
    ensures
        (graded(s, id, rating, now, next, fresh) matches Ok(t) ==> t.revision == s.revision + 1),
        (undone(s) matches Ok(t) ==> t.revision == s.revision + 1),
        (configured(s, id, retention, new_limit, review_limit) matches Ok(t) ==> t.revision == s.revision + 1),
        (bonus_added(s, id, new, review, now as int, fresh) matches Ok(t) ==> t.revision == s.revision + 1),
        applied(s, p).revision == s.revision + 1,
        parameters_applied(s, id, parameters).revision == s.revision + 1,
        settings_changed(s, settings).revision == s.revision + 1,
        deck_added(s, id, name, now).revision == s.revision + 1,
        without_deck(s, id).revision == s.revision + 1,
        edited(s, id, question, answer, explanation, choices).revision == s.revision + 1,
        (SnapshotV { revision: (s.revision + 1) as u64, ..backup }).revision == s.revision + 1,
{
}

/// Adopting trained parameters changes only the deck's parameters: every
/// card keeps its schedule and due time, and the history stays.
pub proof fn law_parameters_keep_schedules(s: SnapshotV, deck: Seq<char>, parameters: Seq<u32>)
    requires
        deck_pos(s.decks, deck) >= 0,
    ensures
        parameters_applied(s, deck, parameters).cards == s.cards,
        parameters_applied(s, deck, parameters).reviews == s.reviews,
        parameters_applied(s, deck, parameters).bonuses == s.bonuses,
        parameters_applied(s, deck, parameters).decks.len() == s.decks.len(),
        parameters_applied(s, deck, parameters).decks[deck_pos(s.decks, deck)].parameters == parameters,
{
}

/// A training that was cancelled, before or after it finished, leaves no
/// result that can be applied.
pub proof fn law_cancelled_training_never_applies(
    j: JobV,
    outcome: std::result::Result<Seq<u32>, Seq<char>>,
    aborted: bool,
)
    ensures
        job_result(job_cancelled(j), aborted) is Err,
        job_result(job_finished(j, true, outcome), aborted) is Err,
        job_result(j, true) is Err,
{
}

/// A backup gives back what was backed up: when `encode_backup` wrote the
/// file `file` for the serialised library `data` with a passphrase, and
/// `decrypt_backup` then read that file with the same passphrase, what it read
/// is `data`.
pub proof fn law_backup_round_trip(
    state: &crate::model::Snapshot,
    data: Vec<u8>,
    passphrase: String,
    file: Vec<u8>,
    bytes: &[u8],
    again: String,
    plain: Vec<u8>,
)
    requires
        call_ensures(
            crate::backup::encode_backup,
            (state, data, passphrase),
            Ok::<Vec<u8>, crate::model::Error>(file),
        ),
        bytes@ == file@,
        again@ == passphrase@,
        call_ensures(crate::backup::decrypt_backup, (bytes, again), Ok::<Vec<u8>, crate::model::Error>(plain)),
    ensures
        plain@ == data@,
{
}

proof fn lemma_training_ignores_bonuses(s: SnapshotV, t: SnapshotV, deck: Seq<char>, n: int)
    requires
        t.cards == s.cards,
        t.reviews == s.reviews,
    ensures
        crate::analytics::training_upto(t, deck, n) == crate::analytics::training_upto(s, deck, n),
    decreases n,
{
    if n > 0 {
        lemma_training_ignores_bonuses(s, t, deck, n - 1);
    }
}

/// The forecast uses each deck's normal limits and never a same-day bonus:
/// libraries that differ only in their bonuses and revision give every deck
/// the same forecast input and the same statistics.
pub proof fn law_forecast_ignores_bonuses(
    s: SnapshotV,
    bonuses: Seq<crate::model::BonusV>,
    revision: u64,
    deck: Seq<char>,
    a: crate::analytics::Analytics,
)
    ensures
        crate::analytics::simulation_of(
            SnapshotV { bonuses, revision, ..s },
            SnapshotV { bonuses, revision, ..s }.decks[deck_pos(s.decks, deck)],
        ) == crate::analytics::simulation_of(s, s.decks[deck_pos(s.decks, deck)]),
        crate::analytics::analytics_ok(SnapshotV { bonuses, revision, ..s }, deck, a)
            == crate::analytics::analytics_ok(s, deck, a),
{
    let t = SnapshotV { bonuses, revision, ..s };
    lemma_training_ignores_bonuses(s, t, deck, s.cards.len() as int);
}

} // verus!

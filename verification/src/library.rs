//! The library of decks and cards, and the import of CSV data into a deck.
use vstd::prelude::*;
use crate::model::{
    Snapshot, SnapshotV, Settings, SettingsV, Deck, DeckV, Card, CardV, Review, ReviewV, Bonus, BonusV, Change,
    ChangeV, Choice, Mapping, MappingV, ImportPreview, ImportPreviewV, Result, SCHEMA_VERSION,
    ALGORITHM, RETENTION_DEFAULT, invalid, fails_with, decks_view, cards_view, reviews_view,
    bonuses_view, choices_view, texts_view, deck_pos, card_pos, lemma_first_where_at,
    lemma_first_where_none,
};
use crate::text::{trim, blank, is_blank, trimmed, text_eq};
use crate::clock::{study_day, spec_timezone_known, study_day_text, study_day_ok};
use crate::ids::new_id;

verus! {

#[derive(Debug)]
pub struct Library {
    pub state: Snapshot,
}

impl View for Library {
    type V = SnapshotV;

    open spec fn view(&self) -> SnapshotV {
        self.state@
    }
}

/// The library as `Library::new` creates it.
pub open spec fn empty_library(timezone: Seq<char>) -> SnapshotV {
    SnapshotV {
        schema: SCHEMA_VERSION,
        revision: 0,
        settings: SettingsV { timezone, day_start_hour: 4 },
        decks: seq![],
        cards: seq![],
        reviews: seq![],
        bonuses: seq![],
    }
}

/// The scheduler parameters a new deck starts with (`fsrs::DEFAULT_PARAMETERS`).
pub open spec fn default_parameters() -> Seq<u32> {
    seq![
        0x3E591687u32, 0x3FA5844D, 0x40139DB2, 0x4104BAC7, 0x40CD39C1, 0x3F5559B4, 0x40413DD9,
        0x3A83126F, 0x3FEFA440, 0x3E2A9931, 0x3F4BC6A8, 0x3FBDE354, 0x3D7B7E91, 0x3E869AD4,
        0x3FD2FB7F, 0x3F19F55A, 0x3FEFBB30, 0x3F0AE148, 0x3DBAC711, 0x3D86C227, 0x3E1DE69B,
    ]
}

/// `fsrs::DEFAULT_PARAMETERS`, each value as its binary32 pattern.
#[verifier::external_body]
fn default_parameter_bits() -> (p: Vec<u32>)
    ensures
        p@ == default_parameters(),
{
    fsrs::DEFAULT_PARAMETERS.iter().map(|p| p.to_bits()).collect()
}

/// The deck that `create_deck` appends.
pub open spec fn new_deck(id: Seq<char>, name: Seq<char>, now: i64) -> DeckV {
    DeckV {
        id,
        name: trim(name),
        created_at: now,
        retention: RETENTION_DEFAULT,
        new_limit: 20,
        review_limit: None,
        parameters: default_parameters(),
        parameter_version: ALGORITHM@,
        mapping: None,
    }
}

/// `s` after a successful mutation: the same except for what `f` names and a
/// revision one higher.
pub open spec fn bumped(s: SnapshotV) -> SnapshotV {
    SnapshotV { revision: (s.revision + 1) as u64, ..s }
}

/// The library with the new deck added after the others, at the next revision.
pub open spec fn deck_added(s: SnapshotV, id: Seq<char>, name: Seq<char>, now: i64) -> SnapshotV {
    SnapshotV { decks: s.decks.push(new_deck(id, name, now)), ..bumped(s) }
}

/// The library without the deck and its cards, reviews and bonuses, at the
/// next revision.
pub open spec fn without_deck(s: SnapshotV, id: Seq<char>) -> SnapshotV {
    SnapshotV {
        decks: s.decks.filter(|d: DeckV| d.id != id),
        cards: s.cards.filter(|c: CardV| c.deck_id != id),
        reviews: s.reviews.filter(|v: ReviewV| v.deck_id != id),
        bonuses: s.bonuses.filter(|b: BonusV| b.deck_id != id),
        ..bumped(s)
    }
}

/// Appends the text unless an equal text is already present.
pub fn append_unique(values: &mut Vec<String>, value: String)
    ensures
        texts_view(final(values)@) == (if texts_view(old(values)@).contains(value@) {
            texts_view(old(values)@)
        } else {
            texts_view(old(values)@).push(value@)
        }),
{
    let mut i: usize = 0;
    while i < values.len()
        invariant
            i <= values.len(),
            values@ == old(values)@,
            forall|k: int| 0 <= k < i ==> values@[k]@ != value@,
        decreases values.len() - i,
    {
        if values[i] == value {
            assert(texts_view(values@)[i as int] == value@);
            return;
        }
        i = i + 1;
    }
    proof {
        assert forall|k: int| 0 <= k < texts_view(values@).len() implies texts_view(
            values@,
        )[k] != value@ by {
            assert(values@[k]@ != value@);
        }
    }
    values.push(value);
    assert(texts_view(values@) =~= texts_view(old(values)@).push(value@));
}

/// Appends the choice unless an equal choice is already present.
pub fn append_unique_choice(values: &mut Vec<Choice>, value: Choice)
    ensures
        choices_view(final(values)@) == (if choices_view(old(values)@).contains(value@) {
            choices_view(old(values)@)
        } else {
            choices_view(old(values)@).push(value@)
        }),
{
    let mut i: usize = 0;
    while i < values.len()
        invariant
            i <= values.len(),
            values@ == old(values)@,
            forall|k: int| 0 <= k < i ==> values@[k]@ != value@,
        decreases values.len() - i,
    {
        if values[i].label == value.label && values[i].text == value.text {
            assert(choices_view(values@)[i as int] == value@);
            return;
        }
        i = i + 1;
    }
    proof {
        assert forall|k: int| 0 <= k < choices_view(values@).len() implies choices_view(
            values@,
        )[k] != value@ by {
            assert(values@[k]@ != value@);
        }
    }
    values.push(value);
    assert(choices_view(values@) =~= choices_view(old(values)@).push(value@));
}

/// The column assignment used with a question, answer and optional ID column
/// (columns 1, 2 and 0) and no explanation or choices.
pub fn mapping(ids: bool) -> (m: Mapping)
    ensures
        m@ == (MappingV {
            question: 1,
            answer: 2,
            explanation: None,
            id: if ids {
                Some(0usize)
            } else {
                None
            },
            choices: seq![],
            choice_separator: None,
        }),
{
    Mapping {
        question: 1,
        answer: 2,
        explanation: None,
        id: if ids {
            Some(0)
        } else {
            None
        },
        choices: Vec::new(),
        choice_separator: None,
    }
}

/// The cards after one change of an import is applied: the first card with the
/// change's id is replaced, or the card is appended when there is none.
pub open spec fn apply_change(cards: Seq<CardV>, after: CardV) -> Seq<CardV> {
    let i = card_pos(cards, after.id);
    if i >= 0 {
        cards.update(i, after)
    } else {
        cards.push(after)
    }
}

/// The cards after all changes are applied in order.
pub open spec fn apply_changes(cards: Seq<CardV>, changes: Seq<ChangeV>) -> Seq<CardV>
    decreases changes.len(),
{
    if changes.len() == 0 {
        cards
    } else {
        apply_change(apply_changes(cards, changes.drop_last()), changes.last().after)
    }
}

/// The library after a checked import is applied.
pub open spec fn applied(s: SnapshotV, p: ImportPreviewV) -> SnapshotV {
    let i = deck_pos(s.decks, p.deck_id);
    SnapshotV {
        revision: (s.revision + 1) as u64,
        decks: s.decks.update(i, DeckV { mapping: Some(p.mapping), ..s.decks[i] }),
        cards: apply_changes(s.cards, p.changes),
        ..s
    }
}

pub proof fn lemma_filter_push<A>(s: Seq<A>, x: A, p: spec_fn(A) -> bool)
    ensures
        s.push(x).filter(p) == (if p(x) {
            s.filter(p).push(x)
        } else {
            s.filter(p)
        }),
{
    reveal(Seq::filter);
    assert(s.push(x).drop_last() =~= s);
}

impl Library {
    /// An empty library whose study days are computed in `timezone`.
    pub fn new(timezone: &str) -> (r: Result<Library>)
        ensures
            r is Ok <==> spec_timezone_known(timezone@) && study_day_text(0, timezone@, 4) is Some,
            (r matches Ok(l) ==> l@ == empty_library(timezone@)),
            (r matches Err(e) ==> study_day_ok(0, timezone@, 4, Err(e))),
    {
        let _day = study_day(0, timezone, 4)?;
        let l = Library {
            state: Snapshot {
                schema: SCHEMA_VERSION,
                revision: 0,
                settings: Settings { timezone: timezone.to_owned(), day_start_hour: 4 },
                decks: Vec::new(),
                cards: Vec::new(),
                reviews: Vec::new(),
                bonuses: Vec::new(),
            },
        };
        assert(decks_view(l.state.decks@) =~= seq![]);
        assert(cards_view(l.state.cards@) =~= seq![]);
        assert(reviews_view(l.state.reviews@) =~= seq![]);
        assert(bonuses_view(l.state.bonuses@) =~= seq![]);
        Ok(l)
    }

    /// Adds an empty deck named `name` (trimmed) with the default settings and
    /// returns its new identifier.
    pub fn create_deck(&mut self, name: &str, now: i64) -> (r: Result<String>)
        requires
            old(self)@.revision < u64::MAX,
        ensures
            blank(name@) || name@.len() > 200 ==> fails_with(
                r,
                "単語帳名を1〜200文字で入力してください。"@,
            ) && final(self)@ == old(self)@,
            !(blank(name@) || name@.len() > 200) ==> (r matches Ok(id) && final(self)@ == deck_added(
                old(self)@,
                id@,
                name@,
                now,
            ) && crate::ids::spec_uuid_text(id@)),
    {
        if is_blank(name) || name.unicode_len() > 200 {
            return Err(invalid("単語帳名を1〜200文字で入力してください。"));
        }
        let id = new_id();
        let deck = Deck {
            id: id.clone(),
            name: trimmed(name).to_owned(),
            created_at: now,
            retention: RETENTION_DEFAULT,
            new_limit: 20,
            review_limit: None,
            parameters: default_parameter_bits(),
            parameter_version: ALGORITHM.to_owned(),
            mapping: None,
        };
        self.state.decks.push(deck);
        self.state.revision = self.state.revision + 1;
        assert(decks_view(self.state.decks@) =~= decks_view(old(self).state.decks@).push(
            new_deck(id@, name@, now),
        ));
        Ok(id)
    }

    /// Removes the deck and its cards, reviews and bonuses; other decks keep all
    /// of theirs.
    pub fn delete_deck(&mut self, id: &str) -> (r: Result<()>)
        requires
            old(self)@.revision < u64::MAX,
        ensures
            deck_pos(old(self)@.decks, id@) < 0 ==> fails_with(r, "単語帳が見つかりません。"@)
                && final(self)@ == old(self)@,
            deck_pos(old(self)@.decks, id@) >= 0 ==> r is Ok && final(self)@ == without_deck(old(self)@, id@),
    {
        let found = self.find_deck(id);
        if found.is_none() {
            return Err(invalid("単語帳が見つかりません。"));
        }
        let ghost idv = id@;
        let mut rest: Vec<Deck> = Vec::new();
        std::mem::swap(&mut rest, &mut self.state.decks);
        let ghost orig = rest@;
        assert(orig.len() == rest.len());
        let mut kept: Vec<Deck> = Vec::new();
        let mut k: usize = 0;
        while rest.len() > 0
            invariant
                k + rest.len() == orig.len(),
                orig.len() <= usize::MAX,
                rest@ == orig.skip(k as int),
                decks_view(kept@) == decks_view(orig.take(k as int)).filter(
                    |d: DeckV| d.id != idv,
                ),
                idv == id@,
            decreases rest.len(),
        {
            let d = rest.remove(0);
            assert(orig.take(k + 1) =~= orig.take(k as int).push(d));
            assert(decks_view(orig.take(k + 1)) =~= decks_view(orig.take(k as int)).push(d@));
            proof {
                lemma_filter_push(decks_view(orig.take(k as int)), d@, |d: DeckV| d.id != idv);
            }
            if !text_eq(d.id.as_str(), id) {
                kept.push(d);
                assert(decks_view(kept@) =~= decks_view(orig.take(k + 1)).filter(
                    |d: DeckV| d.id != idv,
                ));
            }
            k = k + 1;
            assert(rest@ =~= orig.skip(k as int));
        }
        assert(orig.take(k as int) =~= orig);
        self.state.decks = kept;
        let mut rest: Vec<Card> = Vec::new();
        std::mem::swap(&mut rest, &mut self.state.cards);
        let ghost orig = rest@;
        assert(orig.len() == rest.len());
        let mut kept: Vec<Card> = Vec::new();
        let mut k: usize = 0;
        while rest.len() > 0
            invariant
                k + rest.len() == orig.len(),
                orig.len() <= usize::MAX,
                rest@ == orig.skip(k as int),
                cards_view(kept@) == cards_view(orig.take(k as int)).filter(
                    |c: CardV| c.deck_id != idv,
                ),
                idv == id@,
            decreases rest.len(),
        {
            let c = rest.remove(0);
            assert(orig.take(k + 1) =~= orig.take(k as int).push(c));
            assert(cards_view(orig.take(k + 1)) =~= cards_view(orig.take(k as int)).push(c@));
            proof {
                lemma_filter_push(cards_view(orig.take(k as int)), c@, |c: CardV| c.deck_id != idv);
            }
            if !text_eq(c.deck_id.as_str(), id) {
                kept.push(c);
                assert(cards_view(kept@) =~= cards_view(orig.take(k + 1)).filter(
                    |c: CardV| c.deck_id != idv,
                ));
            }
            k = k + 1;
            assert(rest@ =~= orig.skip(k as int));
        }
        assert(orig.take(k as int) =~= orig);
        self.state.cards = kept;
        let mut rest: Vec<Review> = Vec::new();
        std::mem::swap(&mut rest, &mut self.state.reviews);
        let ghost orig = rest@;
        assert(orig.len() == rest.len());
        let mut kept: Vec<Review> = Vec::new();
        let mut k: usize = 0;
        while rest.len() > 0
            invariant
                k + rest.len() == orig.len(),
                orig.len() <= usize::MAX,
                rest@ == orig.skip(k as int),
                reviews_view(kept@) == reviews_view(orig.take(k as int)).filter(
                    |v: ReviewV| v.deck_id != idv,
                ),
                idv == id@,
            decreases rest.len(),
        {
            let v = rest.remove(0);
            assert(orig.take(k + 1) =~= orig.take(k as int).push(v));
            assert(reviews_view(orig.take(k + 1)) =~= reviews_view(orig.take(k as int)).push(v@));
            proof {
                lemma_filter_push(reviews_view(orig.take(k as int)), v@, |v: ReviewV| v.deck_id != idv);
            }
            if !text_eq(v.deck_id.as_str(), id) {
                kept.push(v);
                assert(reviews_view(kept@) =~= reviews_view(orig.take(k + 1)).filter(
                    |v: ReviewV| v.deck_id != idv,
                ));
            }
            k = k + 1;
            assert(rest@ =~= orig.skip(k as int));
        }
        assert(orig.take(k as int) =~= orig);
        self.state.reviews = kept;
        let mut rest: Vec<Bonus> = Vec::new();
        std::mem::swap(&mut rest, &mut self.state.bonuses);
        let ghost orig = rest@;
        assert(orig.len() == rest.len());
        let mut kept: Vec<Bonus> = Vec::new();
        let mut k: usize = 0;
        while rest.len() > 0
            invariant
                k + rest.len() == orig.len(),
                orig.len() <= usize::MAX,
                rest@ == orig.skip(k as int),
                bonuses_view(kept@) == bonuses_view(orig.take(k as int)).filter(
                    |b: BonusV| b.deck_id != idv,
                ),
                idv == id@,
            decreases rest.len(),
        {
            let b = rest.remove(0);
            assert(orig.take(k + 1) =~= orig.take(k as int).push(b));
            assert(bonuses_view(orig.take(k + 1)) =~= bonuses_view(orig.take(k as int)).push(b@));
            proof {
                lemma_filter_push(bonuses_view(orig.take(k as int)), b@, |b: BonusV| b.deck_id != idv);
            }
            if !text_eq(b.deck_id.as_str(), id) {
                kept.push(b);
                assert(bonuses_view(kept@) =~= bonuses_view(orig.take(k + 1)).filter(
                    |b: BonusV| b.deck_id != idv,
                ));
            }
            k = k + 1;
            assert(rest@ =~= orig.skip(k as int));
        }
        assert(orig.take(k as int) =~= orig);
        self.state.bonuses = kept;
        self.state.revision = self.state.revision + 1;
        Ok(())
    }

    /// Index of the first deck with the id, if any.
    pub fn find_deck(&self, id: &str) -> (r: Option<usize>)
        ensures
            (r matches Some(i) ==> i as int == deck_pos(self@.decks, id@)),
            r is None ==> deck_pos(self@.decks, id@) == -1,
    {
        let mut i: usize = 0;
        while i < self.state.decks.len()
            invariant
                i <= self.state.decks.len(),
                forall|k: int| 0 <= k < i ==> self@.decks[k].id != id@,
            decreases self.state.decks.len() - i,
        {
            if text_eq(self.state.decks[i].id.as_str(), id) {
                proof {
                    lemma_first_where_at(self@.decks, |d: DeckV| d.id == id@, i as int);
                }
                return Some(i);
            }
            i = i + 1;
        }
        proof {
            lemma_first_where_none(self@.decks, |d: DeckV| d.id == id@);
        }
        None
    }

    /// Index of the first card with the id, if any.
    pub fn find_card(&self, id: &str) -> (r: Option<usize>)
        ensures
            (r matches Some(i) ==> i as int == card_pos(self@.cards, id@)),
            r is None ==> card_pos(self@.cards, id@) == -1,
    {
        let mut i: usize = 0;
        while i < self.state.cards.len()
            invariant
                i <= self.state.cards.len(),
                forall|k: int| 0 <= k < i ==> self@.cards[k].id != id@,
            decreases self.state.cards.len() - i,
        {
            if text_eq(self.state.cards[i].id.as_str(), id) {
                proof {
                    lemma_first_where_at(self@.cards, |c: CardV| c.id == id@, i as int);
                }
                return Some(i);
            }
            i = i + 1;
        }
        proof {
            lemma_first_where_none(self@.cards, |c: CardV| c.id == id@);
        }
        None
    }

    /// Applies a checked import: stores its column assignment on the deck and
    /// writes each change's card in order. Refused when the library changed
    /// since the preview, when the preview has issues, or when the deck is gone.
    pub fn apply_import(&mut self, preview: ImportPreview) -> (r: Result<()>)
        requires
            old(self)@.revision < u64::MAX,
        ensures
            preview.revision != old(self)@.revision ==> fails_with(
                r,
                "プレビュー後にデータが変わりました。もう一度プレビューしてください。"@,
            ),
            preview.revision == old(self)@.revision && preview.errors.len() > 0 ==> fails_with(
                r,
                "CSVの要確認項目を解消してください。"@,
            ),
            preview.revision == old(self)@.revision && preview.errors.len() == 0 && deck_pos(
                old(self)@.decks,
                preview.deck_id@,
            ) < 0 ==> fails_with(r, "単語帳が見つかりません。"@),
            preview.revision == old(self)@.revision && preview.errors.len() == 0 && deck_pos(
                old(self)@.decks,
                preview.deck_id@,
            ) >= 0 ==> r is Ok,
            r is Err ==> final(self)@ == old(self)@,
            r is Ok ==> final(self)@ == applied(old(self)@, preview@),
            final(self)@.reviews == old(self)@.reviews,
            final(self)@.bonuses == old(self)@.bonuses,
            final(self)@.settings == old(self)@.settings,
    {
        if preview.revision != self.state.revision {
            return Err(
                invalid("プレビュー後にデータが変わりました。もう一度プレビューしてください。"),
            );
        }
        if preview.errors.len() > 0 {
            return Err(invalid("CSVの要確認項目を解消してください。"));
        }
        let di = match self.find_deck(preview.deck_id.as_str()) {
            Some(i) => i,
            None => return Err(invalid("単語帳が見つかりません。")),
        };
        let ImportPreview { mapping, changes, deck_id, .. } = preview;
        let ghost pv = preview@;
        let mut deck = self.state.decks.remove(di);
        deck.mapping = Some(mapping);
        self.state.decks.insert(di, deck);
        assert(decks_view(self.state.decks@) =~= old(self)@.decks.update(
            di as int,
            DeckV { mapping: Some(pv.mapping), ..old(self)@.decks[di as int] },
        ));
        let mut rest = changes;
        let ghost all = rest@;
        assert(all.len() == rest.len());
        let ghost allv = pv.changes;
        assert(allv == all.map_values(|c: Change| c@));
        let mut k: usize = 0;
        while rest.len() > 0
            invariant
                k + rest.len() == all.len(),
                all.len() <= usize::MAX,
                di < old(self)@.decks.len(),
                rest@ == all.skip(k as int),
                allv == all.map_values(|c: Change| c@),
                cards_view(self.state.cards@) == apply_changes(
                    old(self)@.cards,
                    allv.take(k as int),
                ),
                self@.reviews == old(self)@.reviews,
                self@.bonuses == old(self)@.bonuses,
                self@.settings == old(self)@.settings,
                self@.revision == old(self)@.revision,
                self@.schema == old(self)@.schema,
                decks_view(self.state.decks@) == old(self)@.decks.update(
                    di as int,
                    DeckV { mapping: Some(pv.mapping), ..old(self)@.decks[di as int] },
                ),
            decreases rest.len(),
        {
            let change = rest.remove(0);
            assert(allv.take(k + 1).drop_last() =~= allv.take(k as int));
            assert(allv.take(k + 1).last() == change@);
            let found = self.find_card(change.after.id.as_str());
            match found {
                Some(i) => {
                    self.state.cards.set(i, change.after);
                },
                None => {
                    self.state.cards.push(change.after);
                },
            }
            assert(cards_view(self.state.cards@) =~= apply_changes(
                old(self)@.cards,
                allv.take(k + 1),
            ));
            k = k + 1;
            assert(rest@ =~= all.skip(k as int));
        }
        assert(allv.take(k as int) =~= allv);
        self.state.revision = self.state.revision + 1;
        Ok(())
    }
}

} // verus!

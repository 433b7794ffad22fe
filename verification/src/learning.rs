//! Studying: the daily queue of due reviews and new cards under the deck's
//! limits and the day's bonus, grading a card and undoing the last grade, and
//! the deck, bonus, settings and card edits.
use vstd::prelude::*;
use vstd::string::StringSliceAdditionalSpecFns;
use crate::model::{
    Deck, DeckV, CardV, ReviewV, BonusV, Queue, SnapshotV, Result, Error, fails_with, invalid,
    deck_pos, first_where, lemma_first_where_at, lemma_first_where_none,
};
use crate::clock::{study_day, study_day_ok, study_day_text, day_settings_valid};
use crate::library::{Library, lemma_filter_push};
use crate::import::deck_cards;

verus! {

/// The study day of `now` under the library's settings.
pub open spec fn today(s: SnapshotV, now: int) -> Option<Seq<char>> {
    if day_settings_valid(s.settings.timezone, s.settings.day_start_hour as int) {
        study_day_text(now, s.settings.timezone, s.settings.day_start_hour as int)
    } else {
        None
    }
}

/// Cards reviewed on a study day, each with whether its first review that day
/// was its first review ever, in order of first review.
pub open spec fn seen_step(seen: Seq<(Seq<char>, bool)>, r: ReviewV) -> Seq<(Seq<char>, bool)> {
    if exists|j: int| 0 <= j < seen.len() && seen[j].0 == r.card_id {
        seen
    } else {
        seen.push((r.card_id, r.before.reps == 0))
    }
}

/// The cards of the deck reviewed on the study day `day`, from the first `n`
/// reviews; `None` when the study day of one of the deck's reviews cannot be
/// computed.
pub open spec fn seen_upto(s: SnapshotV, deck: Seq<char>, day: Seq<char>, n: int) -> Option<Seq<(Seq<char>, bool)>>
    decreases n,
{
    if n <= 0 {
        Some(seq![])
    } else {
        match seen_upto(s, deck, day, n - 1) {
            None => None,
            Some(seen) => {
                let r = s.reviews[n - 1];
                if r.deck_id != deck {
                    Some(seen)
                } else {
                    match today(s, r.at as int) {
                        None => None,
                        Some(d) => if d == day {
                            Some(seen_step(seen, r))
                        } else {
                            Some(seen)
                        },
                    }
                }
            },
        }
    }
}

pub open spec fn seen_of(s: SnapshotV, deck: Seq<char>, day: Seq<char>) -> Option<Seq<(Seq<char>, bool)>> {
    seen_upto(s, deck, day, s.reviews.len() as int)
}

pub open spec fn seen_contains(seen: Seq<(Seq<char>, bool)>, id: Seq<char>) -> bool {
    exists|j: int| 0 <= j < seen.len() && seen[j].0 == id
}

pub open spec fn seen_view(v: Seq<(String, bool)>) -> Seq<(Seq<char>, bool)> {
    v.map_values(|e: (String, bool)| (e.0@, e.1))
}

pub proof fn lemma_seen_len(s: SnapshotV, deck: Seq<char>, day: Seq<char>, n: int)
    requires
        0 <= n <= s.reviews.len(),
        seen_upto(s, deck, day, n) is Some,
    ensures
        seen_upto(s, deck, day, n)->0.len() <= n,
    decreases n,
{
    if n > 0 {
        lemma_seen_len(s, deck, day, n - 1);
    }
}

// ---------------------------------------------------------------------------
// Queue

pub struct QueueV {
    pub day: Seq<char>,
    pub card_ids: Seq<Seq<char>>,
    pub remaining_new: usize,
    pub due_reviews: usize,
    pub new_used: u32,
    pub review_used: u32,
    pub new_limit: u32,
    pub review_limit: Option<u32>,
    pub new_bonus: u32,
    pub review_bonus: u32,
}

impl View for Queue {
    type V = QueueV;

    open spec fn view(&self) -> QueueV {
        QueueV {
            day: self.day@,
            card_ids: self.card_ids@.map_values(|s: String| s@),
            remaining_new: self.remaining_new,
            due_reviews: self.due_reviews,
            new_used: self.new_used,
            review_used: self.review_used,
            new_limit: self.new_limit,
            review_limit: self.review_limit,
            new_bonus: self.new_bonus,
            review_bonus: self.review_bonus,
        }
    }
}

/// Byte-wise lexicographic order (the order of `str`).
pub open spec fn bytes_less(a: Seq<u8>, b: Seq<u8>) -> bool
    decreases a.len(),
{
    if a.len() == 0 {
        b.len() > 0
    } else if b.len() == 0 {
        false
    } else if a[0] != b[0] {
        a[0] < b[0]
    } else {
        bytes_less(a.drop_first(), b.drop_first())
    }
}

pub open spec fn id_less(a: Seq<char>, b: Seq<char>) -> bool {
    bytes_less(vstd::utf8::encode_utf8(a), vstd::utf8::encode_utf8(b))
}

/// Due cards come first by due time, then creation time, then identifier.
pub open spec fn due_before(a: CardV, b: CardV) -> bool {
    let da = match a.schedule.due {
        Some(d) => d as int,
        None => 0,
    };
    let db = match b.schedule.due {
        Some(d) => d as int,
        None => 0,
    };
    ||| da < db
    ||| da == db && a.created_at < b.created_at
    ||| da == db && a.created_at == b.created_at && id_less(a.id, b.id)
}

/// `s` with `x` inserted before the first element that `x` comes before.
pub open spec fn insert_due(s: Seq<CardV>, x: CardV) -> Seq<CardV> {
    let j = first_where(s, |y: CardV| due_before(x, y));
    if j < 0 {
        s.push(x)
    } else {
        s.insert(j, x)
    }
}

/// The cards in due order; cards with equal keys keep their library order.
pub open spec fn due_order(s: Seq<CardV>) -> Seq<CardV>
    decreases s.len(),
{
    if s.len() == 0 {
        s
    } else {
        insert_due(due_order(s.drop_last()), s.last())
    }
}

/// The deck's learned cards whose due time has come.
pub open spec fn due_cards(cards: Seq<CardV>, now: int) -> Seq<CardV> {
    cards.filter(
        |c: CardV| c.schedule.reps > 0 && c.schedule.due is Some && c.schedule.due->0 <= now,
    )
}

pub open spec fn unlearned_cards(cards: Seq<CardV>) -> Seq<CardV> {
    cards.filter(|c: CardV| c.schedule.reps == 0)
}

/// The due cards that go into the queue: every card already seen today, and
/// others while the review allowance lasts.
pub open spec fn pick_due(due: Seq<CardV>, seen: Seq<(Seq<char>, bool)>, allowance: int) -> Seq<Seq<char>>
    decreases due.len(),
{
    if due.len() == 0 {
        seq![]
    } else if seen_contains(seen, due[0].id) {
        seq![due[0].id] + pick_due(due.drop_first(), seen, allowance)
    } else if allowance > 0 {
        seq![due[0].id] + pick_due(due.drop_first(), seen, allowance - 1)
    } else {
        pick_due(due.drop_first(), seen, allowance)
    }
}

pub open spec fn min(a: int, b: int) -> int {
    if a < b {
        a
    } else {
        b
    }
}

pub open spec fn bonus_pos(s: SnapshotV, deck: Seq<char>, day: Seq<char>) -> int {
    first_where(s.bonuses, |b: BonusV| b.deck_id == deck && b.day == day)
}

/// The message of the failure of `study_day` under the settings, when they are
/// valid only the moment itself can be out of range.
pub open spec fn day_error(tz: Seq<char>, start_hour: int) -> Seq<char> {
    if start_hour > 23 {
        "学習日の開始時刻が不正です。"@
    } else if !crate::clock::spec_timezone_known(tz) {
        "タイムゾーンが不正です。"@
    } else {
        "日時が不正です。"@
    }
}

/// The queue of the deck at `now`, or the message of the error `queue` gives.
pub open spec fn queue_of(s: SnapshotV, deck: Seq<char>, now: int) -> std::result::Result<QueueV, Seq<char>> {
    let di = deck_pos(s.decks, deck);
    if di < 0 {
        Err("単語帳が見つかりません。"@)
    } else if today(s, now) is None {
        Err(day_error(s.settings.timezone, s.settings.day_start_hour as int))
    } else {
        let config = s.decks[di];
        let day = today(s, now)->0;
        let bi = bonus_pos(s, deck, day);
        let new_bonus: u32 = if bi >= 0 { s.bonuses[bi].new } else { 0 };
        let review_bonus: u32 = if bi >= 0 { s.bonuses[bi].review } else { 0 };
        if config.new_limit + new_bonus > u32::MAX || (config.review_limit matches Some(n) && n
            + review_bonus > u32::MAX) {
            Err("枚数が大きすぎます。"@)
        } else if seen_of(s, deck, day) is None {
            Err("日時が不正です。"@)
        } else {
            let seen = seen_of(s, deck, day)->0;
            let new_limit = config.new_limit + new_bonus;
            let review_limit: Option<u32> = match config.review_limit {
                Some(n) => Some((n + review_bonus) as u32),
                None => None,
            };
            let new_used = seen.filter(|e: (Seq<char>, bool)| e.1).len();
            let review_used = seen.len() - new_used;
            let new_available = if new_used < new_limit { new_limit - new_used } else { 0 };
            let review_cap: int = match review_limit {
                Some(n) => n as int,
                None => u32::MAX as int,
            };
            let review_available = if review_used < review_cap { review_cap - review_used } else { 0 };
            let cards = deck_cards(s, deck);
            let fresh = unlearned_cards(cards);
            let due = due_cards(cards, now);
            Ok(QueueV {
                day,
                card_ids: pick_due(due_order(due), seen, review_available) + fresh.take(
                    min(new_available, fresh.len() as int),
                ).map_values(|c: CardV| c.id),
                remaining_new: fresh.len() as usize,
                due_reviews: due.len() as usize,
                new_used: new_used as u32,
                review_used: review_used as u32,
                new_limit: new_limit as u32,
                review_limit,
                new_bonus,
                review_bonus,
            })
        }
    }
}

pub proof fn lemma_seen_none_stays(s: SnapshotV, deck: Seq<char>, day: Seq<char>, n: int, m: int)
    requires
        n <= m,
        seen_upto(s, deck, day, n) is None,
    ensures
        seen_upto(s, deck, day, m) is None,
    decreases m - n,
{
    if n < m {
        lemma_seen_none_stays(s, deck, day, n, m - 1);
    }
}

/// What `queue` returns: the queue, or the error with its message.
pub open spec fn queue_ok(s: SnapshotV, deck: Seq<char>, now: int, r: Result<Queue>) -> bool {
    match queue_of(s, deck, now) {
        Ok(qv) => r matches Ok(q) && q@ == qv,
        Err(m) => fails_with(r, m),
    }
}

impl Library {
    /// The study day of `now`.
    pub fn day(&self, now: i64) -> (r: Result<String>)
        ensures
            study_day_ok(
                now as int,
                self@.settings.timezone,
                self@.settings.day_start_hour as int,
                r,
            ),
    {
        study_day(now, self.state.settings.timezone.as_str(), self.state.settings.day_start_hour)
    }

    /// The first deck with the identifier.
    pub fn deck(&self, id: &str) -> (r: Result<&Deck>)
        ensures
            deck_pos(self@.decks, id@) < 0 ==> fails_with(r, "単語帳が見つかりません。"@),
            (r matches Ok(d) ==> deck_pos(self@.decks, id@) >= 0 && d@ == self@.decks[deck_pos(
                self@.decks,
                id@,
            )]),
            deck_pos(self@.decks, id@) >= 0 ==> r is Ok,
    {
        match self.find_deck(id) {
            Some(i) => Ok(&self.state.decks[i]),
            None => Err(invalid("単語帳が見つかりません。")),
        }
    }

    /// The cards of the deck reviewed on the study day of `now`, with whether
    /// their first review that day was their first review ever.
    pub fn reviewed_today(&self, deck: &str, now: i64) -> (r: Result<Vec<(String, bool)>>)
        ensures
            today(self@, now as int) is None ==> (r matches Err(e) && study_day_ok(
                now as int,
                self@.settings.timezone,
                self@.settings.day_start_hour as int,
                Err(e),
            )),
            today(self@, now as int) is Some && seen_of(self@, deck@, today(self@, now as int)->0)
                is None ==> fails_with(r, "日時が不正です。"@),
            (r matches Ok(v) ==> today(self@, now as int) is Some && seen_of(
                self@,
                deck@,
                today(self@, now as int)->0,
            ) == Some(seen_view(v@))),
            today(self@, now as int) is Some && seen_of(self@, deck@, today(self@, now as int)->0)
                is Some ==> r is Ok,
    {
        let day = self.day(now)?;
        let ghost s = self@;
        let mut seen: Vec<(String, bool)> = Vec::new();
        let mut i: usize = 0;
        assert(seen_view(seen@) =~= seq![]);
        while i < self.state.reviews.len()
            invariant
                s == self@,
                i <= self.state.reviews.len(),
                today(s, now as int) == Some(day@),
                seen_upto(s, deck@, day@, i as int) == Some(seen_view(seen@)),
            decreases self.state.reviews.len() - i,
        {
            let review = &self.state.reviews[i];
            if crate::text::text_eq(review.deck_id.as_str(), deck) {
                let d = match self.day(review.at) {
                    Ok(d) => d,
                    Err(_) => {
                        proof {
                            assert(day_settings_valid(s.settings.timezone, s.settings.day_start_hour as int));
                            assert(seen_upto(s, deck@, day@, i + 1) is None);
                            lemma_seen_none_stays(s, deck@, day@, i + 1, s.reviews.len() as int);
                        }
                        return Err(invalid("日時が不正です。"));
                    },
                };
                if d == day {
                    let ghost prev = seen_view(seen@);
                    let mut j: usize = 0;
                    let mut found = false;
                    while j < seen.len()
                        invariant
                            j <= seen.len(),
                            !found ==> forall|t: int| 0 <= t < j ==> seen@[t].0@ != review.card_id@,
                            found ==> exists|t: int| 0 <= t < seen.len() && seen@[t].0@ == review.card_id@,
                        decreases seen.len() - j,
                    {
                        if seen[j].0 == review.card_id {
                            found = true;
                        }
                        j = j + 1;
                    }
                    if !found {
                        seen.push((review.card_id.clone(), review.before.reps == 0));
                        assert(seen_view(seen@) =~= prev.push((review.card_id@, review.before.reps == 0)));
                    } else {
                        proof {
                            let t = choose|t: int| 0 <= t < seen@.len() && seen@[t].0@ == review.card_id@;
                            assert(prev[t].0 == review.card_id@);
                        }
                    }
                }
            }
            i = i + 1;
        }
        Ok(seen)
    }
}

} // verus!

verus! {

/// Whether `a` comes before `b` in byte-wise order.
pub fn id_before(a: &String, b: &String) -> (r: bool)
    ensures
        r == id_less(a@, b@),
{
    let x = a.as_str().as_bytes();
    let y = b.as_str().as_bytes();
    let ghost xs = x@;
    let ghost ys = y@;
    assert(xs.skip(0) =~= xs);
    assert(ys.skip(0) =~= ys);
    let mut i: usize = 0;
    while i < x.len() && i < y.len() && x[i] == y[i]
        invariant
            xs == x@,
            ys == y@,
            xs == vstd::utf8::encode_utf8(a@),
            ys == vstd::utf8::encode_utf8(b@),
            i <= x.len(),
            i <= y.len(),
            bytes_less(xs, ys) == bytes_less(xs.skip(i as int), ys.skip(i as int)),
        decreases x.len() - i,
    {
        assert(xs.skip(i as int).drop_first() =~= xs.skip(i + 1));
        assert(ys.skip(i as int).drop_first() =~= ys.skip(i + 1));
        i = i + 1;
    }
    if i == x.len() {
        i < y.len()
    } else if i == y.len() {
        false
    } else {
        x[i] < y[i]
    }
}

/// Whether card `a` is due before card `b`.
pub fn due_before_exec(a: &crate::model::Card, b: &crate::model::Card) -> (r: bool)
    ensures
        r == due_before(a@, b@),
{
    let da: i64 = match a.schedule.due {
        Some(d) => d,
        None => 0,
    };
    let db: i64 = match b.schedule.due {
        Some(d) => d,
        None => 0,
    };
    if da != db {
        da < db
    } else if a.created_at != b.created_at {
        a.created_at < b.created_at
    } else {
        id_before(&a.id, &b.id)
    }
}

/// Index of the first bonus of the deck for the day.
fn find_bonus(lib: &Library, deck: &str, day: &String) -> (r: Option<usize>)
    ensures
        (r matches Some(i) ==> i as int == bonus_pos(lib@, deck@, day@) && i < lib.state.bonuses.len()),
        r is None ==> bonus_pos(lib@, deck@, day@) == -1,
{
    let mut i: usize = 0;
    while i < lib.state.bonuses.len()
        invariant
            i <= lib.state.bonuses.len(),
            forall|k: int| 0 <= k < i ==> !(lib@.bonuses[k].deck_id == deck@ && lib@.bonuses[k].day == day@),
        decreases lib.state.bonuses.len() - i,
    {
        if crate::text::text_eq(lib.state.bonuses[i].deck_id.as_str(), deck) && lib.state.bonuses[i].day == *day {
            proof {
                lemma_first_where_at(lib@.bonuses, |b: BonusV| b.deck_id == deck@ && b.day == day@, i as int);
            }
            return Some(i);
        }
        i = i + 1;
    }
    proof {
        lemma_first_where_none(lib@.bonuses, |b: BonusV| b.deck_id == deck@ && b.day == day@);
    }
    None
}

/// Positions (in the library's cards) of the listed cards that satisfy the
/// filter `due` (due by `now`) or, when `due` is false, are unlearned.
fn select_cards(lib: &Library, ex: &Vec<usize>, due: bool, now: i64, ghost_cards: Ghost<Seq<CardV>>) -> (r: Vec<usize>)
    requires
        ex.len() == ghost_cards@.len(),
        forall|k: int| 0 <= k < ex.len() ==> ex@[k] < lib.state.cards.len() && lib@.cards[#[trigger] ex@[k] as int] == ghost_cards@[k],
    ensures
        due ==> r.len() == due_cards(ghost_cards@, now as int).len(),
        !due ==> r.len() == unlearned_cards(ghost_cards@).len(),
        forall|k: int| 0 <= k < r.len() ==> r@[k] < lib.state.cards.len(),
        due ==> forall|k: int| 0 <= k < r.len() ==> lib@.cards[#[trigger] r@[k] as int] == due_cards(ghost_cards@, now as int)[k],
        !due ==> forall|k: int| 0 <= k < r.len() ==> lib@.cards[#[trigger] r@[k] as int] == unlearned_cards(ghost_cards@)[k],
{
    let ghost cs = ghost_cards@;
    let ghost p = if due {
        |c: CardV| c.schedule.reps > 0 && c.schedule.due is Some && c.schedule.due->0 <= now as int
    } else {
        |c: CardV| c.schedule.reps == 0
    };
    assert(due ==> due_cards(cs, now as int) == cs.filter(p));
    assert(!due ==> unlearned_cards(cs) == cs.filter(p));
    let mut r: Vec<usize> = Vec::new();
    let mut j: usize = 0;
    while j < ex.len()
        invariant
            j <= ex.len(),
            ex.len() == cs.len(),
            forall|k: int| 0 <= k < ex.len() ==> ex@[k] < lib.state.cards.len() && lib@.cards[#[trigger] ex@[k] as int] == cs[k],
            p == (if due {
                |c: CardV| c.schedule.reps > 0 && c.schedule.due is Some && c.schedule.due->0 <= now as int
            } else {
                |c: CardV| c.schedule.reps == 0
            }),
            r.len() == cs.take(j as int).filter(p).len(),
            forall|k: int| 0 <= k < r.len() ==> r@[k] < lib.state.cards.len() && lib@.cards[#[trigger] r@[k] as int] == cs.take(j as int).filter(p)[k],
        decreases ex.len() - j,
    {
        let ci = ex[j];
        assert(lib@.cards[ci as int] == cs[j as int]);
        assert(cs.take(j + 1) =~= cs.take(j as int).push(cs[j as int]));
        proof {
            lemma_filter_push(cs.take(j as int), cs[j as int], p);
        }
        let s = lib.state.cards[ci].schedule;
        let keep = if due {
            s.reps > 0 && match s.due {
                Some(d) => d <= now,
                None => false,
            }
        } else {
            s.reps == 0
        };
        if keep {
            r.push(ci);
        }
        j = j + 1;
    }
    assert(cs.take(ex.len() as int) =~= cs);
    r
}

pub open spec fn cards_at(cards: Seq<CardV>, idx: Seq<usize>) -> Seq<CardV> {
    idx.map_values(|i: usize| cards[i as int])
}

/// The positions reordered so that their cards are in due order.
fn sort_due(lib: &Library, idx: &Vec<usize>) -> (r: Vec<usize>)
    requires
        forall|k: int| 0 <= k < idx.len() ==> idx@[k] < lib.state.cards.len(),
    ensures
        forall|k: int| 0 <= k < r.len() ==> r@[k] < lib.state.cards.len(),
        cards_at(lib@.cards, r@) == due_order(cards_at(lib@.cards, idx@)),
{
    let ghost cs = lib@.cards;
    let mut r: Vec<usize> = Vec::new();
    let mut k: usize = 0;
    while k < idx.len()
        invariant
            k <= idx.len(),
            cs == lib@.cards,
            forall|t: int| 0 <= t < idx.len() ==> idx@[t] < lib.state.cards.len(),
            forall|t: int| 0 <= t < r.len() ==> r@[t] < lib.state.cards.len(),
            cards_at(cs, r@) == due_order(cards_at(cs, idx@).take(k as int)),
        decreases idx.len() - k,
    {
        let x = idx[k];
        assert(cards_at(cs, idx@).take(k + 1).drop_last() =~= cards_at(cs, idx@).take(k as int));
        assert(cards_at(cs, idx@).take(k + 1).last() == cs[x as int]);
        let ghost before = cards_at(cs, r@);
        let mut j: usize = 0;
        while j < r.len() && !due_before_exec(&lib.state.cards[x], &lib.state.cards[r[j]])
            invariant
                j <= r.len(),
                x < lib.state.cards.len(),
                cs == lib@.cards,
                before == cards_at(cs, r@),
                forall|t: int| 0 <= t < r.len() ==> r@[t] < lib.state.cards.len(),
                forall|t: int| 0 <= t < j ==> !due_before(cs[x as int], before[t]),
            decreases r.len() - j,
        {
            j = j + 1;
        }
        if j < r.len() {
            proof {
                lemma_first_where_at(before, |y: CardV| due_before(cs[x as int], y), j as int);
            }
            r.insert(j, x);
            assert(cards_at(cs, r@) =~= before.insert(j as int, cs[x as int]));
        } else {
            proof {
                lemma_first_where_none(before, |y: CardV| due_before(cs[x as int], y));
            }
            r.push(x);
            assert(cards_at(cs, r@) =~= before.push(cs[x as int]));
        }
        k = k + 1;
    }
    assert(cards_at(cs, idx@).take(idx.len() as int) =~= cards_at(cs, idx@));
    r
}

fn seen_has(seen: &Vec<(String, bool)>, id: &String) -> (r: bool)
    ensures
        r == seen_contains(seen_view(seen@), id@),
{
    let mut j: usize = 0;
    while j < seen.len()
        invariant
            j <= seen.len(),
            forall|t: int| 0 <= t < j ==> seen@[t].0@ != id@,
        decreases seen.len() - j,
    {
        if seen[j].0 == *id {
            assert(seen_view(seen@)[j as int].0 == id@);
            return true;
        }
        j = j + 1;
    }
    proof {
        assert forall|t: int| 0 <= t < seen_view(seen@).len() implies seen_view(seen@)[t].0 != id@ by {
            assert(seen@[t].0@ != id@);
        }
    }
    false
}

} // verus!

verus! {

impl Library {
    /// The study queue of the deck at `now`: due reviews in due order (those
    /// already studied today always, others while the review allowance
    /// lasts), then unlearned cards in library order up to the new allowance.
    pub fn queue(&self, deck: &str, now: i64) -> (r: Result<Queue>)
        requires
            self@.reviews.len() <= u32::MAX,
        ensures
            queue_ok(self@, deck@, now as int, r),
    {
        let config = self.deck(deck)?;
        let ghost s = self@;
        let ghost di = deck_pos(s.decks, deck@);
        let day = match self.day(now) {
            Ok(d) => d,
            Err(e) => {
                return Err(e);
            },
        };
        assert(today(s, now as int) == Some(day@));
        let bonus = find_bonus(self, deck, &day);
        let new_bonus: u32 = match bonus {
            Some(i) => self.state.bonuses[i].new,
            None => 0,
        };
        let review_bonus: u32 = match bonus {
            Some(i) => self.state.bonuses[i].review,
            None => 0,
        };
        let new_limit = match config.new_limit.checked_add(new_bonus) {
            Some(n) => n,
            None => return Err(invalid("枚数が大きすぎます。")),
        };
        let review_limit: Option<u32> = match config.review_limit {
            Some(n) => match n.checked_add(review_bonus) {
                Some(m) => Some(m),
                None => return Err(invalid("枚数が大きすぎます。")),
            },
            None => None,
        };
        let seen = match self.reviewed_today(deck, now) {
            Ok(v) => v,
            Err(e) => {
                return Err(e);
            },
        };
        let ghost sv = seen_view(seen@);
        proof {
            lemma_seen_len(s, deck@, day@, s.reviews.len() as int);
        }
        let mut new_used: u32 = 0;
        let mut k: usize = 0;
        while k < seen.len()
            invariant
                k <= seen.len(),
                sv == seen_view(seen@),
                seen.len() <= u32::MAX,
                new_used == sv.take(k as int).filter(|e: (Seq<char>, bool)| e.1).len(),
                new_used <= k,
            decreases seen.len() - k,
        {
            assert(sv.take(k + 1) =~= sv.take(k as int).push(sv[k as int]));
            proof {
                lemma_filter_push(sv.take(k as int), sv[k as int], |e: (Seq<char>, bool)| e.1);
            }
            if seen[k].1 {
                new_used = new_used + 1;
            }
            k = k + 1;
        }
        assert(sv.take(seen.len() as int) =~= sv);
        let review_used: u32 = seen.len() as u32 - new_used;
        let new_available: u32 = new_limit.saturating_sub(new_used);
        let review_cap: u32 = match review_limit {
            Some(n) => n,
            None => u32::MAX,
        };
        let mut review_available: u32 = review_cap.saturating_sub(review_used);
        let ghost cards = deck_cards(s, deck@);
        let ex = crate::import::deck_card_indices(self, deck);
        let fresh = select_cards(self, &ex, false, now, Ghost(cards));
        let due = select_cards(self, &ex, true, now, Ghost(cards));
        assert(cards_at(s.cards, due@) =~= due_cards(cards, now as int));
        let order = sort_due(self, &due);
        let ghost sorted = due_order(due_cards(cards, now as int));
        let mut card_ids: Vec<String> = Vec::new();
        let ghost avail0 = review_available as int;
        let mut t: usize = 0;
        proof {
            assert(sorted.skip(0) =~= sorted);
            assert(card_ids@.map_values(|x: String| x@) =~= seq![]);
        }
        while t < order.len()
            invariant
                t <= order.len(),
                s == self@,
                sv == seen_view(seen@),
                forall|q: int| 0 <= q < order.len() ==> order@[q] < self.state.cards.len(),
                cards_at(s.cards, order@) == sorted,
                card_ids@.map_values(|x: String| x@) + pick_due(sorted.skip(t as int), sv, review_available as int)
                    == pick_due(sorted, sv, avail0),
            decreases order.len() - t,
        {
            let card = &self.state.cards[order[t]];
            assert(sorted.skip(t as int)[0] == card@);
            assert(sorted.skip(t as int).drop_first() =~= sorted.skip(t + 1));
            let ghost before = card_ids@.map_values(|x: String| x@);
            if seen_has(&seen, &card.id) {
                card_ids.push(card.id.clone());
                assert(card_ids@.map_values(|x: String| x@) =~= before + seq![card@.id]);
            } else if review_available > 0 {
                card_ids.push(card.id.clone());
                review_available = review_available - 1;
                assert(card_ids@.map_values(|x: String| x@) =~= before + seq![card@.id]);
            }
            t = t + 1;
        }
        assert(sorted.skip(order.len() as int) =~= seq![]);
        let ghost due_part = card_ids@.map_values(|x: String| x@);
        let ghost fr = unlearned_cards(cards);
        let mut u: usize = 0;
        let mut left = new_available;
        while u < fresh.len() && left > 0
            invariant
                u <= fresh.len(),
                s == self@,
                fresh.len() == fr.len(),
                forall|q: int| 0 <= q < fresh.len() ==> fresh@[q] < self.state.cards.len() && s.cards[#[trigger] fresh@[q] as int] == fr[q],
                left as int == new_available as int - u,
                card_ids@.map_values(|x: String| x@) == due_part + fr.take(u as int).map_values(|c: CardV| c.id),
            decreases fresh.len() - u,
        {
            let card = &self.state.cards[fresh[u]];
            assert(card@ == fr[u as int]);
            assert(fr.take(u + 1) =~= fr.take(u as int).push(fr[u as int]));
            assert(fr.take(u + 1).map_values(|c: CardV| c.id) =~= fr.take(u as int).map_values(|c: CardV| c.id).push(fr[u as int].id));
            let ghost prev = card_ids@.map_values(|x: String| x@);
            card_ids.push(card.id.clone());
            assert(card_ids@.map_values(|x: String| x@) =~= prev.push(card@.id));
            left = left - 1;
            u = u + 1;
            assert(card_ids@.map_values(|x: String| x@) =~= due_part + fr.take(u as int).map_values(|c: CardV| c.id));
        }
        assert(u as int == min(new_available as int, fr.len() as int));
        let q = Queue {
            day,
            card_ids,
            remaining_new: fresh.len(),
            due_reviews: due.len(),
            new_used,
            review_used,
            new_limit,
            review_limit,
            new_bonus,
            review_bonus,
        };
        Ok(q)
    }
}

} // verus!

verus! {

/// What the scheduler needs to grade a card: its memory state (binary32
/// patterns of stability and difficulty), the deck's target retention and
/// parameters, and the whole study days since its last review.
#[derive(Debug)]
pub struct GradePlan {
    pub memory: Option<(u32, u32)>,
    pub retention: u32,
    pub parameters: Vec<u32>,
    pub elapsed_days: u32,
}

pub struct GradePlanV {
    pub memory: Option<(u32, u32)>,
    pub retention: u32,
    pub parameters: Seq<u32>,
    pub elapsed_days: u32,
}

impl View for GradePlan {
    type V = GradePlanV;

    open spec fn view(&self) -> GradePlanV {
        GradePlanV {
            memory: self.memory,
            retention: self.retention,
            parameters: self.parameters@,
            elapsed_days: self.elapsed_days,
        }
    }
}

/// The scheduler's answer for the chosen rating: the new memory state
/// (binary32 patterns) and the interval in whole days, as the caller rounds it
/// and keeps it within 1 to 36500 days in floating point; an interval that is
/// not a number becomes 0 there, and the card is then due at once.
#[derive(Clone, Copy, Debug, PartialEq, Eq, Structural)]
pub struct NextMemory {
    pub stability: u32,
    pub difficulty: u32,
    pub interval_days: i64,
}

/// Whole study days from the card's last review to `now` (0 when it was
/// never reviewed, never negative); `None` when the study day of the last
/// review cannot be computed.
pub open spec fn elapsed_of(s: SnapshotV, card: CardV, now: int) -> Option<u32> {
    match card.schedule.last_review {
        None => Some(0u32),
        Some(l) => if today(s, l as int) is None {
            None
        } else {
            let tz = s.settings.timezone;
            let h = s.settings.day_start_hour as int;
            let a = crate::clock::study_day_number(now, tz, h)->0;
            let b = crate::clock::study_day_number(l as int, tz, h)->0;
            Some(if a - b > 0 { (a - b) as u32 } else { 0u32 })
        },
    }
}

/// The memory state of a schedule, when it has one.
pub open spec fn memory_of(s: crate::model::Schedule) -> Option<(u32, u32)> {
    match (s.stability, s.difficulty) {
        (Some(a), Some(b)) => Some((a, b)),
        _ => None,
    }
}

/// What grading checks before the scheduler runs, in order: the rating, the
/// clock, the card, that the card is in today's queue, and the days elapsed.
pub open spec fn plan_of(s: SnapshotV, id: Seq<char>, rating: u32, now: int) -> std::result::Result<GradePlanV, Seq<char>> {
    if rating < 1 || rating > 4 {
        Err("自己評価は1〜4で指定してください。"@)
    } else if s.reviews.len() > 0 && s.reviews.last().at > now {
        Err("時計が前回の学習より前になっています。端末の日時を確認してください。"@)
    } else if crate::model::card_pos(s.cards, id) < 0 {
        Err("カードが見つかりません。"@)
    } else {
        let card = s.cards[crate::model::card_pos(s.cards, id)];
        match queue_of(s, card.deck_id, now) {
            Err(m) => Err(m),
            Ok(q) => if !q.card_ids.contains(id) {
                Err("このカードは現在の学習対象ではありません。"@)
            } else {
                let deck = s.decks[deck_pos(s.decks, card.deck_id)];
                match elapsed_of(s, card, now) {
                    None => Err("日時が不正です。"@),
                    Some(e) => Ok(
                        GradePlanV {
                            memory: memory_of(card.schedule),
                            retention: deck.retention,
                            parameters: deck.parameters,
                            elapsed_days: e,
                        },
                    ),
                }
            },
        }
    }
}

/// Seconds until the card is due again: one minute after "again", otherwise
/// the scheduler's interval in days, bounded to 0 to 36500 days.
pub open spec fn interval_seconds(rating: u32, days: i64) -> int {
    if rating == 1 {
        60
    } else {
        let d: int = if days < 0 { 0 } else if days > 36500 { 36500 } else { days as int };
        d * 86400
    }
}

/// The card's schedule after the grade.
pub open spec fn schedule_after(before: crate::model::Schedule, rating: u32, now: i64, next: NextMemory) -> crate::model::Schedule {
    crate::model::Schedule {
        stability: Some(next.stability),
        difficulty: Some(next.difficulty),
        last_review: Some(now),
        due: Some((now + interval_seconds(rating, next.interval_days)) as i64),
        reps: (before.reps + 1) as u32,
        lapses: (before.lapses + if rating == 1 && before.reps > 0 { 1int } else { 0int }) as u32,
    }
}

/// The library after the card is graded with the scheduler's answer `next`,
/// the new review taking the identifier `fresh`; or the message of the error.
pub open spec fn graded(
    s: SnapshotV,
    id: Seq<char>,
    rating: u32,
    now: i64,
    next: NextMemory,
    fresh: Seq<char>,
) -> std::result::Result<SnapshotV, Seq<char>> {
    match plan_of(s, id, rating, now as int) {
        Err(m) => Err(m),
        Ok(p) => {
            let ci = crate::model::card_pos(s.cards, id);
            let card = s.cards[ci];
            if now + interval_seconds(rating, next.interval_days) > i64::MAX {
                Err("日時が範囲外です。"@)
            } else {
                let after = schedule_after(card.schedule, rating, now, next);
                let day = today(s, now as int)->0;
                let seen = seen_of(s, card.deck_id, day)->0;
                let kind = if seen_contains(seen, id) {
                    "repeat"@
                } else if card.schedule.reps == 0 {
                    "new"@
                } else {
                    "review"@
                };
                Ok(
                    SnapshotV {
                        revision: (s.revision + 1) as u64,
                        cards: s.cards.update(ci, CardV { schedule: after, ..card }),
                        reviews: s.reviews.push(
                            ReviewV {
                                id: fresh,
                                card_id: id,
                                deck_id: card.deck_id,
                                at: now,
                                rating,
                                elapsed_days: p.elapsed_days,
                                study_day: day,
                                kind,
                                before: card.schedule,
                                after,
                                parameters: p.parameters,
                                algorithm: crate::model::ALGORITHM@,
                            },
                        ),
                        ..s
                    },
                )
            }
        },
    }
}

} // verus!

verus! {

impl Library {
    /// Checks that the card can be graded now with the rating and gathers what
    /// the scheduler needs.
    pub fn grade_plan(&self, id: &str, rating: u32, now: i64) -> (r: Result<GradePlan>)
        requires
            self@.reviews.len() <= u32::MAX,
        ensures
            match plan_of(self@, id@, rating, now as int) {
                Ok(p) => r matches Ok(g) && g@ == p,
                Err(m) => fails_with(r, m),
            },
    {
        if rating < 1 || rating > 4 {
            return Err(invalid("自己評価は1〜4で指定してください。"));
        }
        let n = self.state.reviews.len();
        if n > 0 && self.state.reviews[n - 1].at > now {
            return Err(
                invalid("時計が前回の学習より前になっています。端末の日時を確認してください。"),
            );
        }
        let ci = match self.find_card(id) {
            Some(i) => i,
            None => return Err(invalid("カードが見つかりません。")),
        };
        let card = &self.state.cards[ci];
        let q = match self.queue(card.deck_id.as_str(), now) {
            Ok(q) => q,
            Err(e) => {
                return Err(e);
            },
        };
        let mut k: usize = 0;
        let mut listed = false;
        while k < q.card_ids.len()
            invariant
                k <= q.card_ids.len(),
                !listed ==> forall|t: int| 0 <= t < k ==> q@.card_ids[t] != id@,
                listed ==> q@.card_ids.contains(id@),
            decreases q.card_ids.len() - k,
        {
            if crate::text::text_eq(q.card_ids[k].as_str(), id) {
                assert(q@.card_ids[k as int] == id@);
                listed = true;
            }
            k = k + 1;
        }
        if !listed {
            return Err(invalid("このカードは現在の学習対象ではありません。"));
        }
        let deck = match self.deck(card.deck_id.as_str()) {
            Ok(d) => d,
            Err(e) => {
                return Err(e);
            },
        };
        let _day = self.day(now)?;
        let elapsed_days: u32 = match card.schedule.last_review {
            None => 0,
            Some(last) => {
                match self.day(last) {
                    Ok(_) => {},
                    Err(_) => {
                        return Err(invalid("日時が不正です。"));
                    },
                }
                let tz = self.state.settings.timezone.as_str();
                let h = self.state.settings.day_start_hour;
                let a = crate::clock::study_day_index(now, tz, h)?;
                let b = crate::clock::study_day_index(last, tz, h)?;
                let diff: i64 = a as i64 - b as i64;
                if diff > 0 {
                    diff as u32
                } else {
                    0
                }
            },
        };
        let memory = match (card.schedule.stability, card.schedule.difficulty) {
            (Some(a), Some(b)) => Some((a, b)),
            _ => None,
        };
        Ok(
            GradePlan {
                memory,
                retention: deck.retention,
                parameters: deck.parameters.clone(),
                elapsed_days,
            },
        )
    }
}

} // verus!

verus! {

impl Library {
    /// Grades the card with the rating at `now`, given the scheduler's answer
    /// for the plan that `grade_plan` gives: the card takes the new schedule
    /// and a review recording the schedules before and after is appended.
    pub fn grade(&mut self, id: &str, rating: u32, now: i64, next: NextMemory) -> (r: Result<()>)
        requires
            old(self)@.revision < u64::MAX,
            old(self)@.reviews.len() < u32::MAX,
            forall|i: int| 0 <= i < old(self)@.cards.len() ==> #[trigger] old(self)@.cards[i].schedule.reps
                < u32::MAX && old(self)@.cards[i].schedule.lapses < u32::MAX,
        ensures
            match graded(old(self)@, id@, rating, now, next, final(self)@.reviews.last().id) {
                Ok(t) => r is Ok && final(self)@ == t,
                Err(m) => fails_with(r, m) && final(self)@ == old(self)@,
            },
            r is Ok ==> crate::ids::spec_uuid_text(final(self)@.reviews.last().id),
    {
        let plan = self.grade_plan(id, rating, now)?;
        let ghost s = self@;
        let ci = match self.find_card(id) {
            Some(i) => i,
            None => return Err(invalid("カードが見つかりません。")),
        };
        let before = self.state.cards[ci].schedule;
        let deck_id = self.state.cards[ci].deck_id.clone();
        let interval: i64 = if rating == 1 {
            60
        } else {
            let d: i64 = if next.interval_days < 0 {
                0
            } else if next.interval_days > 36500 {
                36500
            } else {
                next.interval_days
            };
            d * 86400
        };
        assert(interval == interval_seconds(rating, next.interval_days));
        let due = match now.checked_add(interval) {
            Some(d) => d,
            None => return Err(invalid("日時が範囲外です。")),
        };
        let lapse: u32 = if rating == 1 && before.reps > 0 {
            1
        } else {
            0
        };
        let after = crate::model::Schedule {
            stability: Some(next.stability),
            difficulty: Some(next.difficulty),
            last_review: Some(now),
            due: Some(due),
            reps: before.reps + 1,
            lapses: before.lapses + lapse,
        };
        let seen = match self.reviewed_today(deck_id.as_str(), now) {
            Ok(v) => v,
            Err(e) => {
                return Err(e);
            },
        };
        let kind = if seen_has(&seen, &self.state.cards[ci].id) {
            "repeat".to_owned()
        } else if before.reps == 0 {
            "new".to_owned()
        } else {
            "review".to_owned()
        };
        let day = self.day(now)?;
        let review = crate::model::Review {
            id: crate::ids::new_id(),
            card_id: id.to_owned(),
            deck_id,
            at: now,
            rating,
            elapsed_days: plan.elapsed_days,
            study_day: day,
            kind,
            before,
            after,
            parameters: plan.parameters,
            algorithm: crate::model::ALGORITHM.to_owned(),
        };
        let mut card = self.state.cards.remove(ci);
        card.schedule = after;
        self.state.cards.insert(ci, card);
        self.state.reviews.push(review);
        self.state.revision = self.state.revision + 1;
        assert(crate::model::cards_view(self.state.cards@) =~= s.cards.update(
            ci as int,
            CardV { schedule: after, ..s.cards[ci as int] },
        ));
        assert(crate::model::reviews_view(self.state.reviews@) =~= s.reviews.push(review@));
        Ok(())
    }
}

} // verus!

verus! {

/// The library after the last grade is undone, or the message of the error.
pub open spec fn undone(s: SnapshotV) -> std::result::Result<SnapshotV, Seq<char>> {
    if s.reviews.len() == 0 {
        Err("取り消せる自己評価がありません。"@)
    } else {
        let r = s.reviews.last();
        let ci = crate::model::card_pos(s.cards, r.card_id);
        if ci < 0 {
            Err("カードが見つかりません。"@)
        } else if s.cards[ci].schedule != r.after {
            Err("その後に学習状態が変わったため取り消せません。"@)
        } else {
            Ok(
                SnapshotV {
                    revision: (s.revision + 1) as u64,
                    cards: s.cards.update(ci, CardV { schedule: r.before, ..s.cards[ci] }),
                    reviews: s.reviews.drop_last(),
                    ..s
                },
            )
        }
    }
}

/// The library after the deck's settings change, or the message of the error.
pub open spec fn configured(
    s: SnapshotV,
    id: Seq<char>,
    retention: u32,
    new_limit: u32,
    review_limit: Option<u32>,
) -> std::result::Result<SnapshotV, Seq<char>> {
    if !crate::model::binary32_unit_open(retention) {
        Err("目標保持率は0%より大きく100%未満にしてください。"@)
    } else if exists|i: int|
        0 <= i < s.bonuses.len() && s.bonuses[i].deck_id == id && (new_limit + s.bonuses[i].new
            > u32::MAX || (review_limit matches Some(n) && n + s.bonuses[i].review > u32::MAX)) {
        Err("当日上乗せと合わせた枚数が大きすぎます。"@)
    } else if deck_pos(s.decks, id) < 0 {
        Err("単語帳が見つかりません。"@)
    } else {
        let di = deck_pos(s.decks, id);
        Ok(
            SnapshotV {
                revision: (s.revision + 1) as u64,
                decks: s.decks.update(di, DeckV { retention, new_limit, review_limit, ..s.decks[di] }),
                ..s
            },
        )
    }
}

/// The library after the day's bonus of the deck grows, a new bonus taking
/// the identifier `fresh`; or the message of the error.
pub open spec fn bonus_added(s: SnapshotV, id: Seq<char>, new: u32, review: u32, now: int, fresh: Seq<char>) -> std::result::Result<SnapshotV, Seq<char>> {
    let di = deck_pos(s.decks, id);
    if di < 0 {
        Err("単語帳が見つかりません。"@)
    } else if today(s, now) is None {
        Err(day_error(s.settings.timezone, s.settings.day_start_hour as int))
    } else {
        let day = today(s, now)->0;
        let bi = bonus_pos(s, id, day);
        let total_new = (if bi >= 0 { s.bonuses[bi].new as int } else { 0 }) + new;
        let total_review = (if bi >= 0 { s.bonuses[bi].review as int } else { 0 }) + review;
        let deck = s.decks[di];
        if total_new > u32::MAX || total_review > u32::MAX || deck.new_limit + total_new > u32::MAX
            || (deck.review_limit matches Some(l) && l + total_review > u32::MAX) {
            Err("枚数が大きすぎます。"@)
        } else if bi >= 0 {
            Ok(
                SnapshotV {
                    revision: (s.revision + 1) as u64,
                    bonuses: s.bonuses.update(
                        bi,
                        BonusV { new: total_new as u32, review: total_review as u32, ..s.bonuses[bi] },
                    ),
                    ..s
                },
            )
        } else {
            Ok(
                SnapshotV {
                    revision: (s.revision + 1) as u64,
                    bonuses: s.bonuses.push(
                        BonusV {
                            id: fresh,
                            deck_id: id,
                            day,
                            new: total_new as u32,
                            review: total_review as u32,
                        },
                    ),
                    ..s
                },
            )
        }
    }
}

/// The choices without those whose text is blank.
/// The library with new study-day settings, at the next revision.
pub open spec fn settings_changed(s: SnapshotV, settings: crate::model::SettingsV) -> SnapshotV {
    SnapshotV { revision: (s.revision + 1) as u64, settings, ..s }
}

/// The library after the content of the card `id` is replaced, at the next
/// revision: given choices replace the card's, those with a blank text left
/// out; without them the card keeps its choices.
pub open spec fn edited(
    s: SnapshotV,
    id: Seq<char>,
    question: Seq<char>,
    answer: Seq<char>,
    explanation: Seq<char>,
    choices: Option<Seq<crate::model::ChoiceV>>,
) -> SnapshotV {
    let ci = crate::model::card_pos(s.cards, id);
    SnapshotV {
        revision: (s.revision + 1) as u64,
        cards: s.cards.update(
            ci,
            CardV {
                question,
                answer,
                explanation,
                choices: match choices {
                    Some(c) => kept_choices(c),
                    None => s.cards[ci].choices,
                },
                ..s.cards[ci]
            },
        ),
        ..s
    }
}

/// The view of choices that may be absent.
pub open spec fn opt_choices_view(o: Option<Vec<crate::model::Choice>>) -> Option<Seq<crate::model::ChoiceV>> {
    match o {
        Some(v) => Some(crate::model::choices_view(v@)),
        None => None,
    }
}

/// The choices whose text is not blank, in order.
fn kept_choice_list(choices: Vec<crate::model::Choice>) -> (r: Vec<crate::model::Choice>)
    ensures
        crate::model::choices_view(r@) == kept_choices(crate::model::choices_view(choices@)),
{
    let ghost cv = crate::model::choices_view(choices@);
    let mut kept: Vec<crate::model::Choice> = Vec::new();
    let mut rest = choices;
    let ghost orig = rest@;
    let mut k: usize = 0;
    assert(orig.len() == rest.len());
    while rest.len() > 0
        invariant
            k + rest.len() == orig.len(),
            orig.len() <= usize::MAX,
            rest@ == orig.skip(k as int),
            cv == crate::model::choices_view(orig),
            crate::model::choices_view(kept@) == kept_choices(cv.take(k as int)),
        decreases rest.len(),
    {
        let c = rest.remove(0);
        assert(cv.take(k + 1) =~= cv.take(k as int).push(c@));
        proof {
            lemma_filter_push(cv.take(k as int), c@, |c: crate::model::ChoiceV| !crate::text::blank(c.text));
        }
        let ghost prev = crate::model::choices_view(kept@);
        if !crate::text::is_blank(c.text.as_str()) {
            kept.push(c);
            assert(crate::model::choices_view(kept@) =~= prev.push(c@));
        }
        k = k + 1;
        assert(rest@ =~= orig.skip(k as int));
    }
    assert(cv.take(k as int) =~= cv);
    kept
}

pub open spec fn kept_choices(v: Seq<crate::model::ChoiceV>) -> Seq<crate::model::ChoiceV> {
    v.filter(|c: crate::model::ChoiceV| !crate::text::blank(c.text))
}

impl Library {
    /// Undoes the last grade: its card returns to the schedule it had before,
    /// when nothing changed that schedule since.
    pub fn undo(&mut self) -> (r: Result<()>)
        requires
            old(self)@.revision < u64::MAX,
        ensures
            match undone(old(self)@) {
                Ok(t) => r is Ok && final(self)@ == t,
                Err(m) => fails_with(r, m) && final(self)@ == old(self)@,
            },
    {
        let n = self.state.reviews.len();
        if n == 0 {
            return Err(invalid("取り消せる自己評価がありません。"));
        }
        let ci = match self.find_card(self.state.reviews[n - 1].card_id.as_str()) {
            Some(i) => i,
            None => return Err(invalid("カードが見つかりません。")),
        };
        if self.state.cards[ci].schedule != self.state.reviews[n - 1].after {
            return Err(invalid("その後に学習状態が変わったため取り消せません。"));
        }
        let ghost s = self@;
        let before = self.state.reviews[n - 1].before;
        let mut card = self.state.cards.remove(ci);
        card.schedule = before;
        self.state.cards.insert(ci, card);
        let _last = self.state.reviews.pop();
        self.state.revision = self.state.revision + 1;
        assert(crate::model::cards_view(self.state.cards@) =~= s.cards.update(
            ci as int,
            CardV { schedule: before, ..s.cards[ci as int] },
        ));
        assert(crate::model::reviews_view(self.state.reviews@) =~= s.reviews.drop_last());
        Ok(())
    }

    /// Sets the deck's target retention (binary32 pattern) and daily limits.
    pub fn configure_deck(&mut self, id: &str, retention: u32, new_limit: u32, review_limit: Option<u32>) -> (r: Result<()>)
        requires
            old(self)@.revision < u64::MAX,
        ensures
            match configured(old(self)@, id@, retention, new_limit, review_limit) {
                Ok(t) => r is Ok && final(self)@ == t,
                Err(m) => fails_with(r, m) && final(self)@ == old(self)@,
            },
    {
        if !(0 < retention && retention < 0x3F80_0000) {
            return Err(invalid("目標保持率は0%より大きく100%未満にしてください。"));
        }
        let mut i: usize = 0;
        while i < self.state.bonuses.len()
            invariant
                i <= self.state.bonuses.len(),
                self@ == old(self)@,
                0 < retention < 0x3F80_0000,
                forall|k: int|
                    0 <= k < i ==> !(self@.bonuses[k].deck_id == id@ && (new_limit + self@.bonuses[k].new > u32::MAX
                        || (review_limit matches Some(n) && n + self@.bonuses[k].review > u32::MAX))),
            decreases self.state.bonuses.len() - i,
        {
            let b = &self.state.bonuses[i];
            if crate::text::text_eq(b.deck_id.as_str(), id) {
                let over_new = new_limit.checked_add(b.new).is_none();
                let over_review = match review_limit {
                    Some(n) => n.checked_add(b.review).is_none(),
                    None => false,
                };
                if over_new || over_review {
                    assert(self@.bonuses[i as int].deck_id == id@ && (new_limit + self@.bonuses[i as int].new > u32::MAX
                        || (review_limit matches Some(n) && n + self@.bonuses[i as int].review > u32::MAX)));
                    return Err(invalid("当日上乗せと合わせた枚数が大きすぎます。"));
                }
            }
            i = i + 1;
        }
        let di = match self.find_deck(id) {
            Some(d) => d,
            None => return Err(invalid("単語帳が見つかりません。")),
        };
        let ghost s = self@;
        let mut deck = self.state.decks.remove(di);
        deck.retention = retention;
        deck.new_limit = new_limit;
        deck.review_limit = review_limit;
        self.state.decks.insert(di, deck);
        self.state.revision = self.state.revision + 1;
        assert(crate::model::decks_view(self.state.decks@) =~= s.decks.update(
            di as int,
            DeckV { retention, new_limit, review_limit, ..s.decks[di as int] },
        ));
        Ok(())
    }

    /// Raises today's limits of the deck by `new` and `review` cards, until the
    /// study day ends.
    pub fn add_bonus(&mut self, id: &str, new: u32, review: u32, now: i64) -> (r: Result<()>)
        requires
            old(self)@.revision < u64::MAX,
        ensures
            match bonus_added(old(self)@, id@, new, review, now as int, final(self)@.bonuses.last().id) {
                Ok(t) => r is Ok && final(self)@ == t,
                Err(m) => fails_with(r, m) && final(self)@ == old(self)@,
            },
            r is Ok && final(self)@.bonuses.len() > old(self)@.bonuses.len() ==> crate::ids::spec_uuid_text(
                final(self)@.bonuses.last().id,
            ),
    {
        let deck = match self.deck(id) {
            Ok(d) => d,
            Err(e) => {
                return Err(e);
            },
        };
        let new_limit = deck.new_limit;
        let review_limit = deck.review_limit;
        let day = match self.day(now) {
            Ok(d) => d,
            Err(e) => {
                return Err(e);
            },
        };
        let bi = find_bonus(self, id, &day);
        let (old_new, old_review): (u32, u32) = match bi {
            Some(i) => (self.state.bonuses[i].new, self.state.bonuses[i].review),
            None => (0, 0),
        };
        let total_new = match old_new.checked_add(new) {
            Some(v) => v,
            None => return Err(invalid("枚数が大きすぎます。")),
        };
        let total_review = match old_review.checked_add(review) {
            Some(v) => v,
            None => return Err(invalid("枚数が大きすぎます。")),
        };
        if new_limit.checked_add(total_new).is_none() {
            return Err(invalid("枚数が大きすぎます。"));
        }
        match review_limit {
            Some(l) => {
                if l.checked_add(total_review).is_none() {
                    return Err(invalid("枚数が大きすぎます。"));
                }
            },
            None => {},
        }
        let ghost s = self@;
        match bi {
            Some(i) => {
                let mut b = self.state.bonuses.remove(i);
                b.new = total_new;
                b.review = total_review;
                self.state.bonuses.insert(i, b);
                assert(crate::model::bonuses_view(self.state.bonuses@) =~= s.bonuses.update(
                    i as int,
                    BonusV { new: total_new, review: total_review, ..s.bonuses[i as int] },
                ));
            },
            None => {
                let b = crate::model::Bonus {
                    id: crate::ids::new_id(),
                    deck_id: id.to_owned(),
                    day,
                    new: total_new,
                    review: total_review,
                };
                self.state.bonuses.push(b);
                assert(crate::model::bonuses_view(self.state.bonuses@) =~= s.bonuses.push(b@));
            },
        }
        self.state.revision = self.state.revision + 1;
        Ok(())
    }

    /// Replaces the study-day settings when they are valid.
    pub fn set_settings(&mut self, settings: crate::model::Settings) -> (r: Result<()>)
        requires
            old(self)@.revision < u64::MAX,
        ensures
            (r matches Err(e) ==> study_day_ok(0, settings@.timezone, settings@.day_start_hour as int, Err(e))
                && final(self)@ == old(self)@),
            r is Ok <==> day_settings_valid(settings@.timezone, settings@.day_start_hour as int)
                && study_day_text(0, settings@.timezone, settings@.day_start_hour as int) is Some,
            r is Ok ==> final(self)@ == settings_changed(old(self)@, settings@),
    {
        let _day = study_day(0, settings.timezone.as_str(), settings.day_start_hour)?;
        self.state.settings = settings;
        self.state.revision = self.state.revision + 1;
        Ok(())
    }

    /// Replaces the card's question, answer and explanation, and its choices
    /// when they are given (choices with a blank text are left out); its review
    /// state and history stay.
    pub fn edit_card(
        &mut self,
        id: &str,
        question: &str,
        answer: &str,
        explanation: &str,
        choices: Option<Vec<crate::model::Choice>>,
    ) -> (r: Result<()>)
        requires
            old(self)@.revision < u64::MAX,
        ensures
            crate::text::blank(question@) || crate::text::blank(answer@) ==> fails_with(
                r,
                "問題と答えを入力してください。"@,
            ) && final(self)@ == old(self)@,
            !(crate::text::blank(question@) || crate::text::blank(answer@)) && crate::model::card_pos(
                old(self)@.cards,
                id@,
            ) < 0 ==> fails_with(r, "カードが見つかりません。"@) && final(self)@ == old(self)@,
            !(crate::text::blank(question@) || crate::text::blank(answer@)) && crate::model::card_pos(
                old(self)@.cards,
                id@,
            ) >= 0 ==> r is Ok && final(self)@ == edited(
                old(self)@,
                id@,
                question@,
                answer@,
                explanation@,
                opt_choices_view(choices),
            ),
    {
        if crate::text::is_blank(question) || crate::text::is_blank(answer) {
            return Err(invalid("問題と答えを入力してください。"));
        }
        let ci = match self.find_card(id) {
            Some(i) => i,
            None => return Err(invalid("カードが見つかりません。")),
        };
        let kept = match choices {
            Some(v) => Some(kept_choice_list(v)),
            None => None,
        };
        let ghost s = self@;
        let mut card = self.state.cards.remove(ci);
        card.question = question.to_owned();
        card.answer = answer.to_owned();
        card.explanation = explanation.to_owned();
        match kept {
            Some(k) => {
                card.choices = k;
            },
            None => {},
        }
        let ghost cardv = card@;
        self.state.cards.insert(ci, card);
        self.state.revision = self.state.revision + 1;
        assert(crate::model::cards_view(self.state.cards@) =~= s.cards.update(ci as int, cardv));
        Ok(())
    }
}

} // verus!

//! Statistics of a deck, the review history the scheduler is trained on, the
//! input of the thirty-day forecast, and the adoption of trained parameters.
//!
//! The scheduler itself (forgetting curve, forecast simulation, training)
//! computes in floating point and runs outside this library; what it is given
//! and what becomes of its answer is decided here.
use vstd::prelude::*;
use crate::model::{
    SnapshotV, DeckV, CardV, ReviewV, Schedule, Result, invalid, fails_with, deck_pos,
};
use crate::library::{Library, lemma_filter_push};
use crate::import::deck_cards;
use crate::storage::{parameters_ok, validate_parameters};
use crate::text::text_eq;

verus! {

/// Expected study load of one of the next thirty days.
#[derive(Clone, Copy, Debug, PartialEq, Eq, Structural)]
pub struct ForecastDay {
    pub day: u32,
    pub reviews: usize,
    pub new_cards: usize,
}

/// One review as the trainer sees it: the rating and the whole study days
/// since the review before it.
#[derive(Clone, Copy, Debug, PartialEq, Eq, Structural)]
pub struct TrainingReview {
    pub rating: u32,
    pub delta_t: u32,
}

/// A prefix of one card's review history.
#[derive(Debug)]
pub struct TrainingItem {
    pub reviews: Vec<TrainingReview>,
}

impl View for TrainingItem {
    type V = Seq<TrainingReview>;

    open spec fn view(&self) -> Seq<TrainingReview> {
        self.reviews@
    }
}

pub open spec fn items_view(v: Seq<TrainingItem>) -> Seq<Seq<TrainingReview>> {
    v.map_values(|i: TrainingItem| i@)
}

pub open spec fn training_review(r: ReviewV) -> TrainingReview {
    TrainingReview { rating: r.rating, delta_t: r.elapsed_days }
}

/// The card's reviews in order, as the trainer sees them.
pub open spec fn card_history(reviews: Seq<ReviewV>, id: Seq<char>) -> Seq<TrainingReview> {
    reviews.filter(|r: ReviewV| r.card_id == id).map_values(|r: ReviewV| training_review(r))
}

/// Some review of the history came on a later day than the one before it.
pub open spec fn has_long_interval(h: Seq<TrainingReview>) -> bool {
    exists|k: int| 0 <= k < h.len() && #[trigger] h[k].delta_t > 0
}

/// The training items of one history: each prefix of two or more reviews
/// that holds a review on a later day, shortest first.
pub open spec fn history_items(h: Seq<TrainingReview>) -> Seq<Seq<TrainingReview>>
    decreases h.len(),
{
    if h.len() == 0 {
        seq![]
    } else {
        history_items(h.drop_last()) + if h.len() >= 2 && has_long_interval(h) {
            seq![h]
        } else {
            seq![]
        }
    }
}

/// Training items, and for each the position of its card among the deck's cards.
pub struct TrainingV {
    pub items: Seq<Seq<TrainingReview>>,
    pub groups: Seq<i64>,
}

/// Number of the deck's cards among the first `n` cards of the library.
pub open spec fn group_count(s: SnapshotV, deck: Seq<char>, n: int) -> int {
    s.cards.take(n).filter(|c: CardV| c.deck_id == deck).len() as int
}

/// The training set drawn from the first `n` cards of the library.
pub open spec fn training_upto(s: SnapshotV, deck: Seq<char>, n: int) -> TrainingV
    decreases n,
{
    if n <= 0 {
        TrainingV { items: seq![], groups: seq![] }
    } else {
        let t = training_upto(s, deck, n - 1);
        let c = s.cards[n - 1];
        if c.deck_id == deck {
            let its = history_items(card_history(s.reviews, c.id));
            TrainingV {
                items: t.items + its,
                groups: t.groups + Seq::new(its.len(), |k: int| group_count(s, deck, n - 1) as i64),
            }
        } else {
            t
        }
    }
}

/// The deck's training set: the items of its cards in library order.
pub open spec fn training_of(s: SnapshotV, deck: Seq<char>) -> TrainingV {
    training_upto(s, deck, s.cards.len() as int)
}

/// Items that end with a review on a later day than the one before.
pub open spec fn samples(items: Seq<Seq<TrainingReview>>) -> nat {
    items.filter(|i: Seq<TrainingReview>| i.len() > 0 && i.last().delta_t > 0).len()
}

/// Long-interval items needed before the scheduler may be trained.
pub const MIN_SAMPLES: usize = 512;

proof fn lemma_has_long_push(h: Seq<TrainingReview>, x: TrainingReview)
    ensures
        has_long_interval(h.push(x)) == (has_long_interval(h) || x.delta_t > 0),
{
    let g = h.push(x);
    if has_long_interval(h) {
        let k = choose|k: int| 0 <= k < h.len() && #[trigger] h[k].delta_t > 0;
        assert(g[k].delta_t > 0);
    }
    if x.delta_t > 0 {
        assert(g[h.len() as int].delta_t > 0);
    }
    if has_long_interval(g) {
        let k = choose|k: int| 0 <= k < g.len() && #[trigger] g[k].delta_t > 0;
        if k < h.len() {
            assert(h[k].delta_t > 0);
        }
    }
}

proof fn lemma_card_history_step(reviews: Seq<ReviewV>, id: Seq<char>, j: int)
    requires
        0 <= j < reviews.len(),
    ensures
        card_history(reviews.take(j + 1), id) == if reviews[j].card_id == id {
            card_history(reviews.take(j), id).push(training_review(reviews[j]))
        } else {
            card_history(reviews.take(j), id)
        },
{
    assert(reviews.take(j + 1) =~= reviews.take(j).push(reviews[j]));
    lemma_filter_push(reviews.take(j), reviews[j], |r: ReviewV| r.card_id == id);
    let f = reviews.take(j).filter(|r: ReviewV| r.card_id == id);
    assert(f.push(reviews[j]).map_values(|r: ReviewV| training_review(r)) =~= f.map_values(
        |r: ReviewV| training_review(r),
    ).push(training_review(reviews[j])));
}

/// Appends the training items of one card's history, each tagged with `group`.
fn push_history_items(
    reviews: &Vec<crate::model::Review>,
    id: &String,
    group: i64,
    items: &mut Vec<TrainingItem>,
    ids: &mut Vec<i64>,
)
    ensures
        ({
            let its = history_items(card_history(crate::model::reviews_view(reviews@), id@));
            &&& items_view(final(items)@) == items_view(old(items)@) + its
            &&& final(ids)@ == old(ids)@ + Seq::new(its.len(), |k: int| group)
        }),
{
    let ghost rs = crate::model::reviews_view(reviews@);
    let ghost items0 = items_view(items@);
    let ghost ids0 = ids@;
    let mut prefix: Vec<TrainingReview> = Vec::new();
    let mut long = false;
    let mut j: usize = 0;
    assert(card_history(rs.take(0), id@) =~= Seq::<TrainingReview>::empty());
    assert(items_view(items@) =~= items0 + history_items(prefix@));
    assert(ids@ =~= ids0 + Seq::new(history_items(prefix@).len(), |k: int| group));
    while j < reviews.len()
        invariant
            j <= reviews.len(),
            rs == crate::model::reviews_view(reviews@),
            prefix@ == card_history(rs.take(j as int), id@),
            long == has_long_interval(prefix@),
            items_view(items@) == items0 + history_items(prefix@),
            ids@ == ids0 + Seq::new(history_items(prefix@).len(), |k: int| group),
        decreases reviews.len() - j,
    {
        proof {
            lemma_card_history_step(rs, id@, j as int);
        }
        let r = &reviews[j];
        if r.card_id == *id {
            let x = TrainingReview { rating: r.rating, delta_t: r.elapsed_days };
            let ghost before = prefix@;
            proof {
                lemma_has_long_push(before, x);
            }
            prefix.push(x);
            assert(prefix@.drop_last() =~= before);
            long = long || x.delta_t > 0;
            if prefix.len() >= 2 && long {
                let ghost items_before = items_view(items@);
                let mut copy: Vec<TrainingReview> = Vec::new();
                let mut k: usize = 0;
                while k < prefix.len()
                    invariant
                        k <= prefix.len(),
                        copy@ == prefix@.take(k as int),
                    decreases prefix.len() - k,
                {
                    copy.push(prefix[k]);
                    assert(copy@ =~= prefix@.take(k + 1));
                    k = k + 1;
                }
                assert(copy@ =~= prefix@);
                items.push(TrainingItem { reviews: copy });
                assert(items_view(items@) =~= items_before.push(prefix@));
                ids.push(group);
                assert(history_items(prefix@) == history_items(before) + seq![prefix@]);
                assert(items_view(items@) =~= items0 + history_items(prefix@));
                assert(ids@ =~= ids0 + Seq::new(history_items(prefix@).len(), |k: int| group));
            } else {
                assert(history_items(prefix@) =~= history_items(before));
            }
        }
        j = j + 1;
    }
    assert(rs.take(reviews.len() as int) =~= rs);
}

impl Library {
    /// The deck's training set: for each of its cards, in order, every prefix
    /// of the card's review history that has at least two reviews and a review
    /// on a later day; with each item the position of its card in the deck.
    pub fn training_items(&self, deck: &str) -> (r: Result<(Vec<TrainingItem>, Vec<i64>)>)
        requires
            self@.cards.len() <= i64::MAX,
        ensures
            deck_pos(self@.decks, deck@) < 0 ==> fails_with(r, "単語帳が見つかりません。"@),
            deck_pos(self@.decks, deck@) >= 0 ==> (r matches Ok((items, ids)) && items_view(items@)
                == training_of(self@, deck@).items && ids@ == training_of(self@, deck@).groups),
    {
        self.deck(deck)?;
        let ghost s = self@;
        let mut items: Vec<TrainingItem> = Vec::new();
        let mut ids: Vec<i64> = Vec::new();
        let mut group: usize = 0;
        let mut i: usize = 0;
        assert(s.cards.take(0).filter(|c: CardV| c.deck_id == deck@) =~= Seq::<CardV>::empty());
        while i < self.state.cards.len()
            invariant
                s == self@,
                i <= s.cards.len(),
                s.cards.len() == self.state.cards.len(),
                s.cards.len() <= i64::MAX,
                group as int == group_count(s, deck@, i as int),
                group <= i,
                items_view(items@) == training_upto(s, deck@, i as int).items,
                ids@ == training_upto(s, deck@, i as int).groups,
            decreases self.state.cards.len() - i,
        {
            let card = &self.state.cards[i];
            proof {
                assert(s.cards.take(i + 1) =~= s.cards.take(i as int).push(s.cards[i as int]));
                lemma_filter_push(s.cards.take(i as int), s.cards[i as int], |c: CardV| c.deck_id == deck@);
            }
            if text_eq(card.deck_id.as_str(), deck) {
                let ghost items0 = items_view(items@);
                let ghost ids0 = ids@;
                push_history_items(&self.state.reviews, &card.id, group as i64, &mut items, &mut ids);
                proof {
                    let its = history_items(card_history(s.reviews, s.cards[i as int].id));
                    assert(ids@ =~= ids0 + Seq::new(its.len(), |k: int| group_count(s, deck@, i as int) as i64));
                }
                group = group + 1;
            }
            i = i + 1;
        }
        Ok((items, ids))
    }
}

/// Counts the items that end with a review on a later day than the one before.
pub fn count_samples(items: &Vec<TrainingItem>) -> (n: usize)
    ensures
        n == samples(items_view(items@)),
{
    let ghost v = items_view(items@);
    let mut n: usize = 0;
    let mut i: usize = 0;
    while i < items.len()
        invariant
            i <= items.len(),
            v == items_view(items@),
            n == samples(v.take(i as int)),
            n <= i,
        decreases items.len() - i,
    {
        proof {
            assert(v.take(i + 1) =~= v.take(i as int).push(v[i as int]));
            lemma_filter_push(v.take(i as int), v[i as int], |it: Seq<TrainingReview>| it.len() > 0 && it.last().delta_t > 0);
        }
        let len = items[i].reviews.len();
        if len > 0 && items[i].reviews[len - 1].delta_t > 0 {
            n = n + 1;
        }
        i = i + 1;
    }
    assert(v.take(items.len() as int) =~= v);
    n
}

impl Library {
    /// The training set, when the deck has enough long-interval items for the
    /// scheduler to be trained on it.
    pub fn training_set(&self, deck: &str) -> (r: Result<(Vec<TrainingItem>, Vec<i64>)>)
        requires
            self@.cards.len() <= i64::MAX,
        ensures
            deck_pos(self@.decks, deck@) < 0 ==> fails_with(r, "単語帳が見つかりません。"@),
            deck_pos(self@.decks, deck@) >= 0 && samples(training_of(self@, deck@).items) < MIN_SAMPLES
                ==> fails_with(
                r,
                "個人向け調整には翌日以降の復習履歴が512件以上必要です。現在は既定パラメータを使います。"@,
            ),
            deck_pos(self@.decks, deck@) >= 0 && samples(training_of(self@, deck@).items) >= MIN_SAMPLES
                ==> (r matches Ok((items, ids)) && items_view(items@) == training_of(self@, deck@).items
                && ids@ == training_of(self@, deck@).groups),
    {
        let (items, ids) = self.training_items(deck)?;
        if count_samples(&items) < MIN_SAMPLES {
            return Err(
                invalid(
                    "個人向け調整には翌日以降の復習履歴が512件以上必要です。現在は既定パラメータを使います。",
                ),
            );
        }
        Ok((items, ids))
    }
}

/// What the forecast simulation knows of a card that has been reviewed: its
/// memory (binary32 patterns), last review, due time and lapses.
#[derive(Clone, Copy, Debug, PartialEq, Eq, Structural)]
pub struct CardMemory {
    pub stability: u32,
    pub difficulty: u32,
    pub last_review: i64,
    pub due: i64,
    pub lapses: u32,
}

/// A card of the forecast simulation: its number (from 1, in deck order) and
/// its memory, `None` for a card the simulation starts as new.
#[derive(Clone, Copy, Debug, PartialEq, Eq, Structural)]
pub struct SimulationCard {
    pub id: i64,
    pub memory: Option<CardMemory>,
}

/// The input of the thirty-day forecast of a deck.
#[derive(Debug)]
pub struct Simulation {
    pub deck_size: usize,
    pub learn_limit: usize,
    pub review_limit: usize,
    /// binary32 pattern of the deck's target retention
    pub retention: u32,
    pub parameters: Vec<u32>,
    pub cards: Vec<SimulationCard>,
}

pub struct SimulationV {
    pub deck_size: usize,
    pub learn_limit: usize,
    pub review_limit: usize,
    pub retention: u32,
    pub parameters: Seq<u32>,
    pub cards: Seq<SimulationCard>,
}

impl View for Simulation {
    type V = SimulationV;

    open spec fn view(&self) -> SimulationV {
        SimulationV {
            deck_size: self.deck_size,
            learn_limit: self.learn_limit,
            review_limit: self.review_limit,
            retention: self.retention,
            parameters: self.parameters@,
            cards: self.cards@,
        }
    }
}

/// Statistics of a deck. The share of successful reviews is
/// `successful_reviews / total_reviews` (none without reviews); the forecast
/// is thirty empty days when `simulation` is `None` (a deck without cards),
/// otherwise the simulation's daily counts (see `forecast_days`).
#[derive(Debug)]
pub struct Analytics {
    pub total_reviews: usize,
    pub successful_reviews: usize,
    pub learned_cards: usize,
    pub optimization_samples: usize,
    pub can_optimize: bool,
    pub simulation: Option<Simulation>,
}

/// The memory the simulation starts a card with.
pub open spec fn card_memory(s: Schedule) -> Option<CardMemory> {
    match (s.stability, s.difficulty, s.last_review, s.due) {
        (Some(st), Some(di), Some(l), Some(d)) => Some(
            CardMemory { stability: st, difficulty: di, last_review: l, due: d, lapses: s.lapses },
        ),
        _ => None,
    }
}

pub open spec fn simulation_cards(cards: Seq<CardV>) -> Seq<SimulationCard> {
    Seq::new(cards.len(), |k: int| SimulationCard { id: (k + 1) as i64, memory: card_memory(cards[k].schedule) })
}

/// The forecast input of a deck with cards.
pub open spec fn simulation_of(s: SnapshotV, d: DeckV) -> SimulationV {
    SimulationV {
        deck_size: deck_cards(s, d.id).len() as usize,
        learn_limit: d.new_limit as usize,
        review_limit: match d.review_limit {
            Some(n) => n as usize,
            None => u32::MAX as usize,
        },
        retention: d.retention,
        parameters: d.parameters,
        cards: simulation_cards(deck_cards(s, d.id)),
    }
}

pub open spec fn deck_reviews(s: SnapshotV, deck: Seq<char>) -> Seq<ReviewV> {
    s.reviews.filter(|r: ReviewV| r.deck_id == deck)
}

pub open spec fn deck_successes(s: SnapshotV, deck: Seq<char>) -> Seq<ReviewV> {
    s.reviews.filter(|r: ReviewV| r.deck_id == deck && r.rating > 1)
}

pub open spec fn deck_learned(s: SnapshotV, deck: Seq<char>) -> Seq<CardV> {
    s.cards.filter(|c: CardV| c.deck_id == deck && c.schedule.reps > 0)
}

/// The statistics of a deck.
pub open spec fn analytics_ok(s: SnapshotV, deck: Seq<char>, a: Analytics) -> bool {
    let d = s.decks[deck_pos(s.decks, deck)];
    &&& a.total_reviews == deck_reviews(s, deck).len()
    &&& a.successful_reviews == deck_successes(s, deck).len()
    &&& a.learned_cards == deck_learned(s, deck).len()
    &&& a.optimization_samples == samples(training_of(s, deck).items)
    &&& a.can_optimize == (a.optimization_samples >= MIN_SAMPLES)
    &&& deck_cards(s, deck).len() == 0 ==> a.simulation is None
    &&& deck_cards(s, deck).len() > 0 ==> (a.simulation matches Some(sim) && sim@ == simulation_of(s, d))
}

fn count_reviews(s: &crate::model::Snapshot, deck: &str) -> (r: (usize, usize))
    ensures
        r.0 == deck_reviews(s@, deck@).len(),
        r.1 == deck_successes(s@, deck@).len(),
{
    let ghost rs = s@.reviews;
    let mut total: usize = 0;
    let mut good: usize = 0;
    let mut i: usize = 0;
    while i < s.reviews.len()
        invariant
            i <= s.reviews.len(),
            rs == s@.reviews,
            rs.len() == s.reviews.len(),
            total == rs.take(i as int).filter(|r: ReviewV| r.deck_id == deck@).len(),
            good == rs.take(i as int).filter(|r: ReviewV| r.deck_id == deck@ && r.rating > 1).len(),
            good <= total <= i,
        decreases s.reviews.len() - i,
    {
        proof {
            assert(rs.take(i + 1) =~= rs.take(i as int).push(rs[i as int]));
            lemma_filter_push(rs.take(i as int), rs[i as int], |r: ReviewV| r.deck_id == deck@);
            lemma_filter_push(rs.take(i as int), rs[i as int], |r: ReviewV| r.deck_id == deck@ && r.rating > 1);
        }
        let r = &s.reviews[i];
        if text_eq(r.deck_id.as_str(), deck) {
            total = total + 1;
            if r.rating > 1 {
                good = good + 1;
            }
        }
        i = i + 1;
    }
    assert(rs.take(s.reviews.len() as int) =~= rs);
    (total, good)
}

/// The memory the simulation starts the card with.
fn memory_of_card(s: &Schedule) -> (m: Option<CardMemory>)
    ensures
        m == card_memory(*s),
{
    match (s.stability, s.difficulty, s.last_review, s.due) {
        (Some(st), Some(di), Some(l), Some(d)) => Some(
            CardMemory { stability: st, difficulty: di, last_review: l, due: d, lapses: s.lapses },
        ),
        _ => None,
    }
}

/// The deck's learned cards and its simulation cards.
fn scan_cards(s: &crate::model::Snapshot, deck: &str) -> (r: (usize, Vec<SimulationCard>))
    requires
        s@.cards.len() < i64::MAX,
    ensures
        r.0 == deck_learned(s@, deck@).len(),
        r.1@ == simulation_cards(deck_cards(s@, deck@)),
{
    let ghost cs = s@.cards;
    let mut learned: usize = 0;
    let mut sim: Vec<SimulationCard> = Vec::new();
    let mut i: usize = 0;
    while i < s.cards.len()
        invariant
            i <= s.cards.len(),
            cs == s@.cards,
            cs.len() == s.cards.len(),
            cs.len() < i64::MAX,
            learned == cs.take(i as int).filter(|c: CardV| c.deck_id == deck@ && c.schedule.reps > 0).len(),
            sim@ == simulation_cards(cs.take(i as int).filter(|c: CardV| c.deck_id == deck@)),
            learned <= i,
            sim.len() <= i,
        decreases s.cards.len() - i,
    {
        let ghost before = cs.take(i as int).filter(|c: CardV| c.deck_id == deck@);
        proof {
            assert(cs.take(i + 1) =~= cs.take(i as int).push(cs[i as int]));
            lemma_filter_push(cs.take(i as int), cs[i as int], |c: CardV| c.deck_id == deck@);
            lemma_filter_push(cs.take(i as int), cs[i as int], |c: CardV| c.deck_id == deck@ && c.schedule.reps > 0);
        }
        let c = &s.cards[i];
        if text_eq(c.deck_id.as_str(), deck) {
            if c.schedule.reps > 0 {
                learned = learned + 1;
            }
            let n = sim.len() as i64;
            sim.push(SimulationCard { id: n + 1, memory: memory_of_card(&c.schedule) });
            assert(sim@ =~= simulation_cards(before.push(cs[i as int])));
        }
        i = i + 1;
    }
    assert(cs.take(s.cards.len() as int) =~= cs);
    (learned, sim)
}

impl Library {
    /// The statistics of a deck: its reviews and successful reviews (rated
    /// above "again"), its cards reviewed at least once, the long-interval
    /// items of its training set and whether they suffice for training, and
    /// the input of its forecast.
    pub fn analytics(&self, deck: &str) -> (r: Result<Analytics>)
        requires
            self@.cards.len() < i64::MAX,
        ensures
            deck_pos(self@.decks, deck@) < 0 ==> fails_with(r, "単語帳が見つかりません。"@),
            deck_pos(self@.decks, deck@) >= 0 ==> (r matches Ok(a) && analytics_ok(self@, deck@, a)),
    {
        let config = self.deck(deck)?;
        let (total_reviews, successful_reviews) = count_reviews(&self.state, deck);
        let (items, _) = self.training_items(deck)?;
        let optimization_samples = count_samples(&items);
        let (learned_cards, cards) = scan_cards(&self.state, deck);
        let simulation = if cards.len() == 0 {
            None
        } else {
            Some(
                Simulation {
                    deck_size: cards.len(),
                    learn_limit: config.new_limit as usize,
                    review_limit: match config.review_limit {
                        Some(n) => n as usize,
                        None => u32::MAX as usize,
                    },
                    retention: config.retention,
                    parameters: config.parameters.clone(),
                    cards,
                },
            )
        };
        proof {
            assert(config@.id == deck@);
        }
        Ok(
            Analytics {
                total_reviews,
                successful_reviews,
                learned_cards,
                optimization_samples,
                can_optimize: optimization_samples >= MIN_SAMPLES,
                simulation,
            },
        )
    }
}

/// The forecast of a deck without cards: thirty days with nothing to study.
pub fn empty_forecast() -> (r: Vec<ForecastDay>)
    ensures
        r.len() == 30,
        forall|d: int| 0 <= d < 30 ==> r@[d] == (ForecastDay { day: d as u32, reviews: 0, new_cards: 0 }),
{
    let mut r: Vec<ForecastDay> = Vec::new();
    let mut day: u32 = 0;
    while day < 30
        invariant
            day <= 30,
            r.len() == day,
            forall|d: int| 0 <= d < day ==> r@[d] == (ForecastDay { day: d as u32, reviews: 0, new_cards: 0 }),
        decreases 30 - day,
    {
        r.push(ForecastDay { day, reviews: 0, new_cards: 0 });
        day = day + 1;
    }
    r
}

/// The forecast from the simulation's daily counts of reviews and of new
/// cards: their first thirty days.
pub fn forecast_days(reviews: &Vec<usize>, new_cards: &Vec<usize>) -> (r: Vec<ForecastDay>)
    requires
        reviews.len() >= 30,
        new_cards.len() >= 30,
    ensures
        r.len() == 30,
        forall|d: int|
            0 <= d < 30 ==> r@[d] == (ForecastDay { day: d as u32, reviews: reviews@[d], new_cards: new_cards@[d] }),
{
    let mut r: Vec<ForecastDay> = Vec::new();
    let mut day: usize = 0;
    while day < 30
        invariant
            day <= 30,
            reviews.len() >= 30,
            new_cards.len() >= 30,
            r.len() == day,
            forall|d: int|
                0 <= d < day ==> r@[d] == (ForecastDay {
                    day: d as u32,
                    reviews: reviews@[d],
                    new_cards: new_cards@[d],
                }),
        decreases 30 - day,
    {
        r.push(ForecastDay { day: day as u32, reviews: reviews[day], new_cards: new_cards[day] });
        day = day + 1;
    }
    r
}

/// The library after trained parameters are adopted for a deck.
pub open spec fn parameters_applied(s: SnapshotV, deck: Seq<char>, p: Seq<u32>) -> SnapshotV {
    let i = deck_pos(s.decks, deck);
    SnapshotV {
        revision: (s.revision + 1) as u64,
        decks: s.decks.update(i, DeckV { parameters: p, ..s.decks[i] }),
        ..s
    }
}

impl Library {
    /// Adopts trained parameters (binary32 patterns) for a deck, provided the
    /// library is still at the revision they were trained on. Schedules
    /// already computed are kept.
    pub fn apply_parameters(&mut self, deck: &str, parameters: Vec<u32>, expected: u64) -> (r: Result<()>)
        requires
            old(self)@.revision < u64::MAX,
        ensures
            old(self)@.revision != expected ==> fails_with(
                r,
                "計算中にデータが変わりました。もう一度計算してください。"@,
            ),
            old(self)@.revision == expected && !parameters_ok(parameters@) ==> fails_with(
                r,
                "FSRSパラメータが不正です。"@,
            ),
            old(self)@.revision == expected && parameters_ok(parameters@) && deck_pos(old(self)@.decks, deck@)
                < 0 ==> fails_with(r, "単語帳が見つかりません。"@),
            r is Err ==> final(self)@ == old(self)@,
            r is Ok <==> (old(self)@.revision == expected && parameters_ok(parameters@) && deck_pos(
                old(self)@.decks,
                deck@,
            ) >= 0),
            r is Ok ==> final(self)@ == parameters_applied(old(self)@, deck@, parameters@),
    {
        if self.state.revision != expected {
            return Err(invalid("計算中にデータが変わりました。もう一度計算してください。"));
        }
        validate_parameters(&parameters)?;
        let i = match self.find_deck(deck) {
            Some(i) => i,
            None => {
                return Err(invalid("単語帳が見つかりません。"));
            },
        };
        let ghost old_state = self@;
        let mut d = self.state.decks.remove(i);
        d.parameters = parameters;
        self.state.decks.insert(i, d);
        self.state.revision = self.state.revision + 1;
        assert(crate::model::decks_view(self.state.decks@) =~= parameters_applied(old_state, deck@, parameters@).decks);
        Ok(())
    }
}

/// What the forgetting curve of a reviewed card is drawn from: its memory
/// (binary32 patterns), the seconds since its last review (never negative),
/// and the decay (the last scheduler parameter, a binary32 pattern) of the
/// parameters its last review used, else of its deck's. Day `d` of the curve
/// is the scheduler's retrievability after `elapsed_seconds / 86400 + d` days.
#[derive(Clone, Copy, Debug, PartialEq, Eq, Structural)]
pub struct CurveBasis {
    pub stability: u32,
    pub difficulty: u32,
    pub elapsed_seconds: i64,
    pub decay: u32,
}

/// Index of the last review of the card among the first `n`, or -1.
pub open spec fn last_review_pos(reviews: Seq<ReviewV>, id: Seq<char>, n: int) -> int
    decreases n,
{
    if n <= 0 {
        -1
    } else if reviews[n - 1].card_id == id {
        n - 1
    } else {
        last_review_pos(reviews, id, n - 1)
    }
}

pub open spec fn saturating_elapsed(now: i64, last: i64) -> i64 {
    let d = now - last;
    if d < 0 {
        0
    } else if d > i64::MAX {
        i64::MAX
    } else {
        d as i64
    }
}

/// The scheduler parameters a card's curve is drawn with: those of its last
/// review, else its deck's.
pub open spec fn curve_parameters(s: SnapshotV, id: Seq<char>) -> Seq<u32> {
    let c = s.cards[crate::model::card_pos(s.cards, id)];
    let ri = last_review_pos(s.reviews, id, s.reviews.len() as int);
    if ri >= 0 {
        s.reviews[ri].parameters
    } else {
        s.decks[deck_pos(s.decks, c.deck_id)].parameters
    }
}

/// The curve of the card reads its parameters' decay: for a card with a memory
/// state in an existing deck, the parameters it is drawn with have one.
pub open spec fn curve_readable(s: SnapshotV, id: Seq<char>) -> bool {
    let ci = crate::model::card_pos(s.cards, id);
    ci >= 0 && s.cards[ci].schedule.stability is Some && s.cards[ci].schedule.difficulty is Some
        && s.cards[ci].schedule.last_review is Some && deck_pos(s.decks, s.cards[ci].deck_id) >= 0
        ==> curve_parameters(s, id).len() > 20
}

/// The basis of the card's forgetting curve; `None` for a card without memory.
pub open spec fn curve_of(s: SnapshotV, id: Seq<char>, now: i64) -> std::result::Result<Option<CurveBasis>, Seq<char>> {
    let ci = crate::model::card_pos(s.cards, id);
    if ci < 0 {
        Err("カードが見つかりません。"@)
    } else {
        let c = s.cards[ci];
        match (c.schedule.stability, c.schedule.difficulty, c.schedule.last_review) {
            (Some(st), Some(di), Some(last)) => {
                let ri = last_review_pos(s.reviews, id, s.reviews.len() as int);
                if deck_pos(s.decks, c.deck_id) < 0 {
                    Err("単語帳が見つかりません。"@)
                } else {
                    Ok(Some(CurveBasis { stability: st, difficulty: di, elapsed_seconds: saturating_elapsed(now, last), decay: curve_parameters(s, id)[20] }))
                }
            },
            _ => Ok(None),
        }
    }
}

impl Library {
    /// Position of the last review of the card, if any.
    fn last_review_index(&self, id: &str) -> (found: Option<usize>)
        ensures
            (found matches Some(k) ==> k < self.state.reviews.len() && k as int == last_review_pos(
                self@.reviews,
                id@,
                self@.reviews.len() as int,
            )),
            found is None ==> last_review_pos(self@.reviews, id@, self@.reviews.len() as int) == -1,
    {
        let mut j: usize = self.state.reviews.len();
        let mut found: Option<usize> = None;
        while j > 0
            invariant_except_break
                j <= self.state.reviews.len(),
                found is None,
                last_review_pos(self@.reviews, id@, self@.reviews.len() as int) == last_review_pos(self@.reviews, id@, j as int),
            ensures
                (found matches Some(k) ==> k < self.state.reviews.len() && k as int == last_review_pos(
                    self@.reviews,
                    id@,
                    self@.reviews.len() as int,
                )),
                found is None ==> last_review_pos(self@.reviews, id@, self@.reviews.len() as int) == -1,
            decreases j,
        {
            if text_eq(self.state.reviews[j - 1].card_id.as_str(), id) {
                found = Some(j - 1);
                break;
            }
            j = j - 1;
        }
        found
    }

    /// Whether the parameters that the card's curve is drawn with are
    /// complete (`curve_readable`).
    pub fn curve_parameters_complete(&self, id: &str) -> (r: bool)
        ensures
            r == curve_readable(self@, id@),
    {
        let ci = match self.find_card(id) {
            Some(i) => i,
            None => {
                return true;
            },
        };
        let card = &self.state.cards[ci];
        if card.schedule.stability.is_none() || card.schedule.difficulty.is_none() || card.schedule.last_review.is_none() {
            return true;
        }
        let deck = match self.deck(card.deck_id.as_str()) {
            Ok(d) => d,
            Err(_) => {
                return true;
            },
        };
        match self.last_review_index(id) {
            Some(k) => self.state.reviews[k].parameters.len() > 20,
            None => deck.parameters.len() > 20,
        }
    }

    /// The basis of the forgetting curve of a card.
    pub fn curve_basis(&self, id: &str, now: i64) -> (r: Result<Option<CurveBasis>>)
        requires
            curve_readable(self@, id@),
        ensures
            match curve_of(self@, id@, now) {
                Ok(b) => r matches Ok(x) && x == b,
                Err(m) => fails_with(r, m),
            },
    {
        let ci = match self.find_card(id) {
            Some(i) => i,
            None => {
                return Err(invalid("カードが見つかりません。"));
            },
        };
        let card = &self.state.cards[ci];
        let (stability, difficulty, last) = match (card.schedule.stability, card.schedule.difficulty, card.schedule.last_review) {
            (Some(a), Some(b), Some(c)) => (a, b, c),
            _ => {
                return Ok(None);
            },
        };
        let found = self.last_review_index(id);
        let deck = self.deck(card.deck_id.as_str())?;
        let parameters = match found {
            Some(k) => &self.state.reviews[k].parameters,
            None => &deck.parameters,
        };
        let elapsed: i64 = if now < last {
            0
        } else if last < 0 && now > i64::MAX + last {
            i64::MAX
        } else {
            now - last
        };
        Ok(Some(CurveBasis { stability, difficulty, elapsed_seconds: elapsed, decay: parameters[20] }))
    }
}

} // verus!

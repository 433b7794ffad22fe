//! The integrity rules of a stored or restored library, and the revision
//! checks that keep a stale writer from overwriting newer data.
use vstd::prelude::*;
use crate::model::{
    Snapshot, Review, Bonus, SnapshotV, DeckV, CardV, ReviewV, BonusV, Schedule, Result, SCHEMA_VERSION, ALGORITHM,
    fails_with, invalid, binary32_finite, binary32_positive, binary32_unit_open, binary32_one_to_ten,
    unlearned, deck_pos, card_pos, lemma_first_where_at, lemma_first_where_none, first_where, cards_view,
};
use crate::text::{blank, is_blank, text_eq};
use crate::clock::{study_day, study_day_text, day_settings_valid, spec_date_valid, date_valid};
use crate::ids::{spec_uuid_text, is_uuid};
use crate::learning::day_error;

verus! {

/// A timestamp between 0001-01-01T00:00:00Z and 9999-12-31T23:59:59Z.
pub open spec fn timestamp_ok(at: i64) -> bool {
    -62_135_596_800 <= at <= 253_402_300_799
}

/// Rejects timestamps outside years 1 to 9999.
pub fn validate_timestamp(at: i64) -> (r: Result<()>)
    ensures
        timestamp_ok(at) ==> r is Ok,
        !timestamp_ok(at) ==> fails_with(r, "日時が対応範囲外です。"@),
{
    if !(-62_135_596_800 <= at && at <= 253_402_300_799) {
        return Err(invalid("日時が対応範囲外です。"));
    }
    Ok(())
}

/// Scheduler parameters: 21 finite values, the last one above zero.
pub open spec fn parameters_ok(p: Seq<u32>) -> bool {
    &&& p.len() == 21
    &&& forall|i: int| 0 <= i < p.len() ==> binary32_finite(#[trigger] p[i])
    &&& binary32_positive(p[20])
}

/// Rejects scheduler parameters the scheduler cannot use. (With 21 finite
/// values the scheduler's own check, `fsrs::FSRS::new`, always accepts.)
pub fn validate_parameters(parameters: &Vec<u32>) -> (r: Result<()>)
    ensures
        parameters_ok(parameters@) ==> r is Ok,
        !parameters_ok(parameters@) ==> fails_with(r, "FSRSパラメータが不正です。"@),
{
    if parameters.len() != 21 {
        return Err(invalid("FSRSパラメータが不正です。"));
    }
    let mut i: usize = 0;
    while i < parameters.len()
        invariant
            i <= parameters.len(),
            forall|k: int| 0 <= k < i ==> binary32_finite(#[trigger] parameters@[k]),
        decreases parameters.len() - i,
    {
        if !(parameters[i] % 0x8000_0000 < 0x7F80_0000) {
            assert(!binary32_finite(parameters@[i as int]));
            return Err(invalid("FSRSパラメータが不正です。"));
        }
        i = i + 1;
    }
    if !(0 < parameters[20] && parameters[20] < 0x7F80_0000) {
        return Err(invalid("FSRSパラメータが不正です。"));
    }
    Ok(())
}

/// The error of a schedule, if any: its timestamps first, then its consistency.
pub open spec fn schedule_error(s: Schedule) -> Option<Seq<char>> {
    if (s.last_review matches Some(t) && !timestamp_ok(t)) || (s.due matches Some(t) && !timestamp_ok(t)) {
        Some("日時が対応範囲外です。"@)
    } else if s.reps == 0 {
        if s != unlearned() {
            Some("未学習カードの状態が不正です。"@)
        } else {
            None
        }
    } else if !(s.stability matches Some(b) && binary32_positive(b)) || !(s.difficulty matches Some(b)
        && binary32_one_to_ten(b)) || s.last_review is None || s.due is None || s.due->0
        <= s.last_review->0 || s.lapses > s.reps {
        Some("記憶状態または復習予定が不正です。"@)
    } else {
        None
    }
}

/// Rejects a schedule with out-of-range times or impossible memory.
pub fn validate_schedule(s: &Schedule) -> (r: Result<()>)
    ensures
        schedule_error(*s) is None ==> r is Ok,
        (schedule_error(*s) matches Some(m) ==> fails_with(r, m)),
{
    match s.last_review {
        Some(t) => validate_timestamp(t)?,
        None => {},
    }
    match s.due {
        Some(t) => validate_timestamp(t)?,
        None => {},
    }
    if s.reps == 0 {
        if *s != Schedule::unlearned() {
            return Err(invalid("未学習カードの状態が不正です。"));
        }
        return Ok(());
    }
    let stability_ok = match s.stability {
        Some(b) => 0 < b && b < 0x7F80_0000,
        None => false,
    };
    let difficulty_ok = match s.difficulty {
        Some(b) => 0x3F80_0000 <= b && b <= 0x4120_0000,
        None => false,
    };
    let times_ok = match (s.last_review, s.due) {
        (Some(l), Some(d)) => d > l,
        _ => false,
    };
    if !stability_ok || !difficulty_ok || !times_ok || s.lapses > s.reps {
        return Err(invalid("記憶状態または復習予定が不正です。"));
    }
    Ok(())
}

/// All identifiers of the library, in the order decks, cards, reviews, bonuses.
pub open spec fn all_ids(s: SnapshotV) -> Seq<Seq<char>> {
    s.decks.map_values(|d: DeckV| d.id) + s.cards.map_values(|c: CardV| c.id) + s.reviews.map_values(
        |r: ReviewV| r.id,
    ) + s.bonuses.map_values(|b: BonusV| b.id)
}

pub open spec fn ids_ok(s: SnapshotV) -> bool {
    &&& forall|i: int| 0 <= i < all_ids(s).len() ==> spec_uuid_text(#[trigger] all_ids(s)[i])
    &&& all_ids(s).no_duplicates()
}

/// The error of one deck, if any.
pub open spec fn deck_error(d: DeckV) -> Option<Seq<char>> {
    if !timestamp_ok(d.created_at) {
        Some("日時が対応範囲外です。"@)
    } else if blank(d.name) || d.name.len() > 200 || !binary32_unit_open(d.retention) || d.parameter_version
        != ALGORITHM@ {
        Some("単語帳の設定が不正または非対応です。"@)
    } else if !parameters_ok(d.parameters) {
        Some("FSRSパラメータが不正です。"@)
    } else {
        None
    }
}

/// The first error among the first `n` decks.
pub open spec fn decks_error(ds: Seq<DeckV>, n: int) -> Option<Seq<char>>
    decreases n,
{
    if n <= 0 {
        None
    } else {
        match decks_error(ds, n - 1) {
            Some(m) => Some(m),
            None => deck_error(ds[n - 1]),
        }
    }
}

pub open spec fn has_deck(s: SnapshotV, id: Seq<char>) -> bool {
    exists|i: int| 0 <= i < s.decks.len() && s.decks[i].id == id
}

/// The error of one card, if any.
pub open spec fn card_error(s: SnapshotV, c: CardV) -> Option<Seq<char>> {
    if !timestamp_ok(c.created_at) {
        Some("日時が対応範囲外です。"@)
    } else if !has_deck(s, c.deck_id) || blank(c.question) || blank(c.answer) || (c.source_id matches Some(x)
        && blank(x)) || (exists|k: int| 0 <= k < c.choices.len() && blank(c.choices[k].text)) {
        Some("カードの内容または単語帳との関係が不正です。"@)
    } else {
        schedule_error(c.schedule)
    }
}

/// The first error among the first `n` cards.
pub open spec fn cards_error(s: SnapshotV, n: int) -> Option<Seq<char>>
    decreases n,
{
    if n <= 0 {
        None
    } else {
        match cards_error(s, n - 1) {
            Some(m) => Some(m),
            None => card_error(s, s.cards[n - 1]),
        }
    }
}

/// The schedule the history last gave each card, and the time of the last review.
pub struct History {
    pub latest: Map<Seq<char>, Schedule>,
    pub last_at: Option<i64>,
}

pub open spec fn latest_of(h: History, id: Seq<char>) -> Schedule {
    if h.latest.contains_key(id) {
        h.latest[id]
    } else {
        unlearned()
    }
}

pub open spec fn review_kind_ok(k: Seq<char>) -> bool {
    k == "new"@ || k == "review"@ || k == "repeat"@
}

/// One more review checked against the history so far: the new history, or
/// the error.
pub open spec fn review_step(s: SnapshotV, h: History, r: ReviewV) -> std::result::Result<History, Seq<char>> {
    let ci = card_pos(s.cards, r.card_id);
    if !timestamp_ok(r.at) {
        Err("日時が対応範囲外です。"@)
    } else if ci < 0 {
        Err("学習履歴に対応するカードがありません。"@)
    } else if s.cards[ci].deck_id != r.deck_id || r.rating < 1 || r.rating > 4 || r.algorithm != ALGORITHM@
        || !review_kind_ok(r.kind) || (h.last_at matches Some(t) && t > r.at) {
        Err("学習履歴の内容が不正または非対応です。"@)
    } else if !spec_date_valid(r.study_day) {
        Err("学習日の形式が不正です。"@)
    } else if !parameters_ok(r.parameters) {
        Err("FSRSパラメータが不正です。"@)
    } else if schedule_error(r.before) is Some {
        Err(schedule_error(r.before)->0)
    } else if schedule_error(r.after) is Some {
        Err(schedule_error(r.after)->0)
    } else if latest_of(h, r.card_id) != r.before {
        Err("学習履歴の連続性を確認できません。"@)
    } else if r.before.reps == u32::MAX {
        Err("学習回数が範囲外です。"@)
    } else if r.after.reps != r.before.reps + 1 || r.after.last_review != Some(r.at) {
        Err("学習履歴の連続性を確認できません。"@)
    } else {
        Ok(History { latest: h.latest.insert(r.card_id, r.after), last_at: Some(r.at) })
    }
}

/// The history after the first `n` reviews, or the first error.
pub open spec fn history(s: SnapshotV, n: int) -> std::result::Result<History, Seq<char>>
    decreases n,
{
    if n <= 0 {
        Ok(History { latest: Map::empty(), last_at: None })
    } else {
        match history(s, n - 1) {
            Err(m) => Err(m),
            Ok(h) => review_step(s, h, s.reviews[n - 1]),
        }
    }
}

/// Every card's schedule is the one its history last gave it.
pub open spec fn cards_match_history(s: SnapshotV, h: History) -> bool {
    forall|i: int| 0 <= i < s.cards.len() ==> latest_of(h, #[trigger] s.cards[i].id) == s.cards[i].schedule
}

/// The error of one bonus given the (deck, day) pairs of the bonuses before it.
pub open spec fn bonus_error(s: SnapshotV, days: Set<(Seq<char>, Seq<char>)>, b: BonusV) -> Option<Seq<char>> {
    if !has_deck(s, b.deck_id) || days.contains((b.deck_id, b.day)) {
        Some("当日上乗せの単語帳または学習日が不正です。"@)
    } else {
        let d = s.decks[deck_pos(s.decks, b.deck_id)];
        if d.new_limit + b.new > u32::MAX || (d.review_limit matches Some(n) && n + b.review > u32::MAX) {
            Some("当日上乗せと合わせた枚数が大きすぎます。"@)
        } else if !spec_date_valid(b.day) {
            Some("学習日の形式が不正です。"@)
        } else {
            None
        }
    }
}

/// The (deck, day) pairs of the first `n` bonuses.
pub open spec fn bonus_days(bs: Seq<BonusV>, n: int) -> Seq<(Seq<char>, Seq<char>)> {
    bs.take(n).map_values(|b: BonusV| (b.deck_id, b.day))
}

pub open spec fn pairs_view(v: Seq<(String, String)>) -> Seq<(Seq<char>, Seq<char>)> {
    v.map_values(|p: (String, String)| (p.0@, p.1@))
}

/// The first error among the first `n` bonuses.
pub open spec fn bonuses_error(s: SnapshotV, n: int) -> Option<Seq<char>>
    decreases n,
{
    if n <= 0 {
        None
    } else {
        match bonuses_error(s, n - 1) {
            Some(m) => Some(m),
            None => bonus_error(s, bonus_days(s.bonuses, n - 1).to_set(), s.bonuses[n - 1]),
        }
    }
}

/// The first integrity error of the library, in the order they are checked,
/// or `None` when it is valid.
pub open spec fn snapshot_error(s: SnapshotV) -> Option<Seq<char>> {
    if s.schema != SCHEMA_VERSION || s.revision > i64::MAX {
        Some("対応していないバックアップ形式です。"@)
    } else if !(day_settings_valid(s.settings.timezone, s.settings.day_start_hour as int) && study_day_text(
        0,
        s.settings.timezone,
        s.settings.day_start_hour as int,
    ) is Some) {
        Some(day_error(s.settings.timezone, s.settings.day_start_hour as int))
    } else if !ids_ok(s) {
        Some("データの識別子が不正または重複しています。"@)
    } else if decks_error(s.decks, s.decks.len() as int) is Some {
        decks_error(s.decks, s.decks.len() as int)
    } else if cards_error(s, s.cards.len() as int) is Some {
        cards_error(s, s.cards.len() as int)
    } else if history(s, s.reviews.len() as int) is Err {
        Some(history(s, s.reviews.len() as int)->Err_0)
    } else if !cards_match_history(s, history(s, s.reviews.len() as int)->Ok_0) {
        Some("学習履歴とカードの状態が一致しません。"@)
    } else {
        bonuses_error(s, s.bonuses.len() as int)
    }
}

/// The library satisfies every integrity rule.
pub open spec fn snapshot_valid(s: SnapshotV) -> bool {
    snapshot_error(s) is None
}

} // verus!

verus! {

pub proof fn lemma_decks_error_stays(ds: Seq<DeckV>, i: int, n: int)
    requires
        i <= n,
        decks_error(ds, i) is Some,
    ensures
        decks_error(ds, n) == decks_error(ds, i),
    decreases n - i,
{
    if i < n {
        lemma_decks_error_stays(ds, i, n - 1);
    }
}

pub proof fn lemma_cards_error_stays(s: SnapshotV, i: int, n: int)
    requires
        i <= n,
        cards_error(s, i) is Some,
    ensures
        cards_error(s, n) == cards_error(s, i),
    decreases n - i,
{
    if i < n {
        lemma_cards_error_stays(s, i, n - 1);
    }
}

pub proof fn lemma_bonuses_error_stays(s: SnapshotV, i: int, n: int)
    requires
        i <= n,
        bonuses_error(s, i) is Some,
    ensures
        bonuses_error(s, n) == bonuses_error(s, i),
    decreases n - i,
{
    if i < n {
        lemma_bonuses_error_stays(s, i, n - 1);
    }
}

pub proof fn lemma_history_error_stays(s: SnapshotV, i: int, n: int)
    requires
        i <= n,
        history(s, i) is Err,
    ensures
        history(s, n) == history(s, i),
    decreases n - i,
{
    if i < n {
        lemma_history_error_stays(s, i, n - 1);
    }
}

fn check_ids(s: &Snapshot) -> (r: Result<()>)
    ensures
        ids_ok(s@) ==> r is Ok,
        !ids_ok(s@) ==> fails_with(r, "データの識別子が不正または重複しています。"@),
{
    let mut ids: Vec<&String> = Vec::new();
    let mut i: usize = 0;
    while i < s.decks.len()
        invariant
            i <= s.decks.len(),
            ids@.map_values(|x: &String| x@) == s@.decks.take(i as int).map_values(|d: DeckV| d.id),
        decreases s.decks.len() - i,
    {
        assert(s@.decks.take(i + 1) =~= s@.decks.take(i as int).push(s@.decks[i as int]));
        assert(s@.decks.take(i + 1).map_values(|d: DeckV| d.id) =~= s@.decks.take(i as int).map_values(|d: DeckV| d.id).push(s@.decks[i as int].id));
        let ghost prev = ids@.map_values(|x: &String| x@);
        ids.push(&s.decks[i].id);
        assert(ids@.map_values(|x: &String| x@) =~= prev.push(s@.decks[i as int].id));
        i = i + 1;
        assert(ids@.map_values(|x: &String| x@) =~= s@.decks.take(i as int).map_values(|d: DeckV| d.id));
    }
    assert(s@.decks.take(s.decks.len() as int) =~= s@.decks);
    let ghost a = ids@.map_values(|x: &String| x@);
    let mut i: usize = 0;
    while i < s.cards.len()
        invariant
            i <= s.cards.len(),
            ids@.map_values(|x: &String| x@) == a + s@.cards.take(i as int).map_values(|c: CardV| c.id),
        decreases s.cards.len() - i,
    {
        assert(s@.cards.take(i + 1) =~= s@.cards.take(i as int).push(s@.cards[i as int]));
        assert(s@.cards.take(i + 1).map_values(|c: CardV| c.id) =~= s@.cards.take(i as int).map_values(|c: CardV| c.id).push(s@.cards[i as int].id));
        let ghost prev = ids@.map_values(|x: &String| x@);
        ids.push(&s.cards[i].id);
        assert(ids@.map_values(|x: &String| x@) =~= prev.push(s@.cards[i as int].id));
        i = i + 1;
        assert(ids@.map_values(|x: &String| x@) =~= a + s@.cards.take(i as int).map_values(|c: CardV| c.id));
    }
    assert(s@.cards.take(s.cards.len() as int) =~= s@.cards);
    let ghost a = ids@.map_values(|x: &String| x@);
    let mut i: usize = 0;
    while i < s.reviews.len()
        invariant
            i <= s.reviews.len(),
            ids@.map_values(|x: &String| x@) == a + s@.reviews.take(i as int).map_values(|r: ReviewV| r.id),
        decreases s.reviews.len() - i,
    {
        assert(s@.reviews.take(i + 1) =~= s@.reviews.take(i as int).push(s@.reviews[i as int]));
        assert(s@.reviews.take(i + 1).map_values(|r: ReviewV| r.id) =~= s@.reviews.take(i as int).map_values(|r: ReviewV| r.id).push(s@.reviews[i as int].id));
        let ghost prev = ids@.map_values(|x: &String| x@);
        ids.push(&s.reviews[i].id);
        assert(ids@.map_values(|x: &String| x@) =~= prev.push(s@.reviews[i as int].id));
        i = i + 1;
        assert(ids@.map_values(|x: &String| x@) =~= a + s@.reviews.take(i as int).map_values(|r: ReviewV| r.id));
    }
    assert(s@.reviews.take(s.reviews.len() as int) =~= s@.reviews);
    let ghost a = ids@.map_values(|x: &String| x@);
    let mut i: usize = 0;
    while i < s.bonuses.len()
        invariant
            i <= s.bonuses.len(),
            ids@.map_values(|x: &String| x@) == a + s@.bonuses.take(i as int).map_values(|b: BonusV| b.id),
        decreases s.bonuses.len() - i,
    {
        assert(s@.bonuses.take(i + 1) =~= s@.bonuses.take(i as int).push(s@.bonuses[i as int]));
        assert(s@.bonuses.take(i + 1).map_values(|b: BonusV| b.id) =~= s@.bonuses.take(i as int).map_values(|b: BonusV| b.id).push(s@.bonuses[i as int].id));
        let ghost prev = ids@.map_values(|x: &String| x@);
        ids.push(&s.bonuses[i].id);
        assert(ids@.map_values(|x: &String| x@) =~= prev.push(s@.bonuses[i as int].id));
        i = i + 1;
        assert(ids@.map_values(|x: &String| x@) =~= a + s@.bonuses.take(i as int).map_values(|b: BonusV| b.id));
    }
    assert(s@.bonuses.take(s.bonuses.len() as int) =~= s@.bonuses);
    let ghost all = ids@.map_values(|x: &String| x@);
    assert(all =~= all_ids(s@));
    let mut k: usize = 0;
    while k < ids.len()
        invariant
            k <= ids.len(),
            all == ids@.map_values(|x: &String| x@),
            all == all_ids(s@),
            forall|t: int| 0 <= t < k ==> spec_uuid_text(#[trigger] all[t]),
            forall|t: int, u: int| 0 <= t < u < k ==> all[t] != all[u],
        decreases ids.len() - k,
    {
        if !is_uuid(ids[k].as_str()) {
            assert(!spec_uuid_text(all[k as int]));
            return Err(invalid("データの識別子が不正または重複しています。"));
        }
        let mut j: usize = 0;
        while j < k
            invariant
                j <= k,
                k < ids.len(),
                all == ids@.map_values(|x: &String| x@),
                all == all_ids(s@),
                forall|t: int| 0 <= t < j ==> all[t] != all[k as int],
            decreases k - j,
        {
            if *ids[j] == *ids[k] {
                assert(all[j as int] == all[k as int]);
                assert(!all.no_duplicates());
                return Err(invalid("データの識別子が不正または重複しています。"));
            }
            j = j + 1;
        }
        k = k + 1;
    }
    Ok(())
}

fn check_decks(s: &Snapshot) -> (r: Result<()>)
    ensures
        decks_error(s@.decks, s@.decks.len() as int) is None ==> r is Ok,
        (decks_error(s@.decks, s@.decks.len() as int) matches Some(m) ==> fails_with(r, m)),
{
    let mut i: usize = 0;
    while i < s.decks.len()
        invariant
            i <= s.decks.len(),
            decks_error(s@.decks, i as int) is None,
        decreases s.decks.len() - i,
    {
        let d = &s.decks[i];
        assert(decks_error(s@.decks, i + 1) == deck_error(d@));
        let r0 = if validate_timestamp(d.created_at).is_err() {
            Err(invalid("日時が対応範囲外です。"))
        } else if is_blank(d.name.as_str()) || d.name.unicode_len() > 200 || !(0 < d.retention
            && d.retention < 0x3F80_0000) || d.parameter_version.as_str().to_owned()
            != ALGORITHM.to_owned() {
            Err(invalid("単語帳の設定が不正または非対応です。"))
        } else {
            validate_parameters(&d.parameters)
        };
        match r0 {
            Err(e) => {
                proof {
                    lemma_decks_error_stays(s@.decks, i + 1, s@.decks.len() as int);
                }
                return Err(e);
            },
            Ok(()) => {},
        }
        i = i + 1;
    }
    Ok(())
}

fn find_deck_in(s: &Snapshot, id: &String) -> (r: Option<usize>)
    ensures
        (r matches Some(i) ==> i as int == deck_pos(s@.decks, id@) && i < s.decks.len()),
        r is None ==> deck_pos(s@.decks, id@) == -1,
        r is Some <==> has_deck(s@, id@),
{
    let mut i: usize = 0;
    while i < s.decks.len()
        invariant
            i <= s.decks.len(),
            forall|k: int| 0 <= k < i ==> s@.decks[k].id != id@,
        decreases s.decks.len() - i,
    {
        if s.decks[i].id == *id {
            proof {
                lemma_first_where_at(s@.decks, |d: DeckV| d.id == id@, i as int);
            }
            return Some(i);
        }
        i = i + 1;
    }
    proof {
        lemma_first_where_none(s@.decks, |d: DeckV| d.id == id@);
    }
    None
}

fn find_card_in(s: &Snapshot, id: &String) -> (r: Option<usize>)
    ensures
        (r matches Some(i) ==> i as int == card_pos(s@.cards, id@) && i < s.cards.len()),
        r is None ==> card_pos(s@.cards, id@) == -1,
{
    let mut i: usize = 0;
    while i < s.cards.len()
        invariant
            i <= s.cards.len(),
            forall|k: int| 0 <= k < i ==> s@.cards[k].id != id@,
        decreases s.cards.len() - i,
    {
        if s.cards[i].id == *id {
            proof {
                lemma_first_where_at(s@.cards, |c: CardV| c.id == id@, i as int);
            }
            return Some(i);
        }
        i = i + 1;
    }
    proof {
        lemma_first_where_none(s@.cards, |c: CardV| c.id == id@);
    }
    None
}

fn check_cards(s: &Snapshot) -> (r: Result<()>)
    ensures
        cards_error(s@, s@.cards.len() as int) is None ==> r is Ok,
        (cards_error(s@, s@.cards.len() as int) matches Some(m) ==> fails_with(r, m)),
{
    let mut i: usize = 0;
    while i < s.cards.len()
        invariant
            i <= s.cards.len(),
            cards_error(s@, i as int) is None,
        decreases s.cards.len() - i,
    {
        let c = &s.cards[i];
        assert(cards_error(s@, i + 1) == card_error(s@, c@));
        if validate_timestamp(c.created_at).is_err() {
            proof {
                lemma_cards_error_stays(s@, i + 1, s@.cards.len() as int);
            }
            return Err(invalid("日時が対応範囲外です。"));
        }
        let id_blank = match &c.source_id {
            Some(x) => is_blank(x.as_str()),
            None => false,
        };
        let mut choice_blank = false;
        let mut k: usize = 0;
        while k < c.choices.len()
            invariant
                k <= c.choices.len(),
                !choice_blank ==> forall|t: int| 0 <= t < k ==> !blank(c@.choices[t].text),
                choice_blank ==> exists|t: int| 0 <= t < c@.choices.len() && blank(c@.choices[t].text),
            decreases c.choices.len() - k,
        {
            if is_blank(c.choices[k].text.as_str()) {
                assert(blank(c@.choices[k as int].text));
                choice_blank = true;
            }
            k = k + 1;
        }
        if find_deck_in(s, &c.deck_id).is_none() || is_blank(c.question.as_str()) || is_blank(c.answer.as_str())
            || id_blank || choice_blank {
            proof {
                lemma_cards_error_stays(s@, i + 1, s@.cards.len() as int);
            }
            return Err(invalid("カードの内容または単語帳との関係が不正です。"));
        }
        match validate_schedule(&c.schedule) {
            Err(e) => {
                proof {
                    lemma_cards_error_stays(s@, i + 1, s@.cards.len() as int);
                }
                return Err(e);
            },
            Ok(()) => {},
        }
        i = i + 1;
    }
    Ok(())
}

} // verus!

verus! {

/// The schedule recorded for the id in a list of (card id, schedule) entries:
/// that of its first entry, or the unlearned schedule.
pub open spec fn lookup(v: Seq<(Seq<char>, Schedule)>, id: Seq<char>) -> Schedule {
    let j = first_where(v, |e: (Seq<char>, Schedule)| e.0 == id);
    if j >= 0 {
        v[j].1
    } else {
        unlearned()
    }
}

pub open spec fn entries_view(v: Seq<(String, Schedule)>) -> Seq<(Seq<char>, Schedule)> {
    v.map_values(|e: (String, Schedule)| (e.0@, e.1))
}

pub proof fn lemma_lookup_set_at(v: Seq<(Seq<char>, Schedule)>, j: int, id: Seq<char>, val: Schedule, x: Seq<char>)
    requires
        j == first_where(v, |e: (Seq<char>, Schedule)| e.0 == id),
        j >= 0,
    ensures
        lookup(v.update(j, (id, val)), x) == if x == id {
            val
        } else {
            lookup(v, x)
        },
{
    let u = v.update(j, (id, val));
    let pid = |e: (Seq<char>, Schedule)| e.0 == id;
    let px = |e: (Seq<char>, Schedule)| e.0 == x;
    crate::model::lemma_first_where_found(v, pid);
    if x == id {
        assert forall|k: int| 0 <= k < j implies !px(u[k]) by {
            assert(!pid(v[k]));
        }
        lemma_first_where_at(u, px, j);
    } else {
        let k = first_where(v, px);
        if k >= 0 {
            crate::model::lemma_first_where_found(v, px);
            assert(k != j);
            assert forall|q: int| 0 <= q < k implies !px(u[q]) by {
                if q != j {
                    assert(!px(v[q]));
                }
            }
            lemma_first_where_at(u, px, k);
        } else {
            assert forall|t: int| 0 <= t < u.len() implies !px(u[t]) by {
                if t != j && px(v[t]) {
                    crate::model::lemma_first_where_some(v, px, t);
                }
            }
            lemma_first_where_none(u, px);
        }
    }
}

pub proof fn lemma_lookup_push(v: Seq<(Seq<char>, Schedule)>, id: Seq<char>, val: Schedule)
    requires
        first_where(v, |e: (Seq<char>, Schedule)| e.0 == id) < 0,
    ensures
        forall|x: Seq<char>| #[trigger] lookup(v.push((id, val)), x) == if x == id {
            val
        } else {
            lookup(v, x)
        },
{
    let u = v.push((id, val));
    assert forall|x: Seq<char>| #[trigger] lookup(u, x) == if x == id {
        val
    } else {
        lookup(v, x)
    } by {
        let k = first_where(v, |e: (Seq<char>, Schedule)| e.0 == x);
        if k >= 0 {
            crate::model::lemma_first_where_found(v, |e: (Seq<char>, Schedule)| e.0 == x);
            lemma_first_where_at(u, |e: (Seq<char>, Schedule)| e.0 == x, k);
        } else {
            assert forall|t: int| 0 <= t < v.len() implies !(v[t].0 == x) by {
                if v[t].0 == x {
                    crate::model::lemma_first_where_some(v, |e: (Seq<char>, Schedule)| e.0 == x, t);
                }
            }
            if x == id {
                lemma_first_where_at(u, |e: (Seq<char>, Schedule)| e.0 == x, v.len() as int);
            } else {
                lemma_first_where_none(u, |e: (Seq<char>, Schedule)| e.0 == x);
            }
        }
    }
}

} // verus!

verus! {

/// Index of the first entry for the id, if any.
fn find_entry(v: &Vec<(String, Schedule)>, id: &String) -> (r: Option<usize>)
    ensures
        (r matches Some(i) ==> i as int == first_where(entries_view(v@), |e: (Seq<char>, Schedule)| e.0 == id@) && i < v.len()),
        r is None ==> first_where(entries_view(v@), |e: (Seq<char>, Schedule)| e.0 == id@) == -1,
{
    let mut i: usize = 0;
    while i < v.len()
        invariant
            i <= v.len(),
            forall|k: int| 0 <= k < i ==> entries_view(v@)[k].0 != id@,
        decreases v.len() - i,
    {
        if v[i].0 == *id {
            proof {
                lemma_first_where_at(entries_view(v@), |e: (Seq<char>, Schedule)| e.0 == id@, i as int);
            }
            return Some(i);
        }
        i = i + 1;
    }
    proof {
        lemma_first_where_none(entries_view(v@), |e: (Seq<char>, Schedule)| e.0 == id@);
    }
    None
}

fn lookup_exec(v: &Vec<(String, Schedule)>, id: &String) -> (r: Schedule)
    ensures
        r == lookup(entries_view(v@), id@),
{
    match find_entry(v, id) {
        Some(i) => v[i].1,
        None => Schedule::unlearned(),
    }
}

/// Checks one review against the history before it.
fn check_review(
    s: &Snapshot,
    r: &Review,
    latest: &Vec<(String, Schedule)>,
    last_at: Option<i64>,
    h: Ghost<History>,
) -> (res: Result<()>)
    requires
        h@.last_at == last_at,
        forall|x: Seq<char>| #[trigger] latest_of(h@, x) == lookup(entries_view(latest@), x),
    ensures
        review_step(s@, h@, r@) is Ok ==> res is Ok,
        (review_step(s@, h@, r@) matches Err(m) ==> fails_with(res, m)),
{
    if validate_timestamp(r.at).is_err() {
        return Err(invalid("日時が対応範囲外です。"));
    }
    let ci = match find_card_in(s, &r.card_id) {
        None => {
            return Err(invalid("学習履歴に対応するカードがありません。"));
        },
        Some(ci) => ci,
    };
    proof {
        reveal_strlit("new");
        reveal_strlit("review");
        reveal_strlit("repeat");
    }
    let kind_ok = text_eq(r.kind.as_str(), "new") || text_eq(r.kind.as_str(), "review") || text_eq(
        r.kind.as_str(),
        "repeat",
    );
    let order_bad = match last_at {
        Some(t) => t > r.at,
        None => false,
    };
    if s.cards[ci].deck_id != r.deck_id || r.rating < 1 || r.rating > 4 || r.algorithm != ALGORITHM.to_owned()
        || !kind_ok || order_bad {
        return Err(invalid("学習履歴の内容が不正または非対応です。"));
    }
    if !date_valid(r.study_day.as_str()) {
        return Err(invalid("学習日の形式が不正です。"));
    }
    validate_parameters(&r.parameters)?;
    validate_schedule(&r.before)?;
    validate_schedule(&r.after)?;
    let current = lookup_exec(latest, &r.card_id);
    if current != r.before {
        return Err(invalid("学習履歴の連続性を確認できません。"));
    }
    if r.before.reps == u32::MAX {
        return Err(invalid("学習回数が範囲外です。"));
    }
    if r.after.reps != r.before.reps + 1 || r.after.last_review != Some(r.at) {
        return Err(invalid("学習履歴の連続性を確認できません。"));
    }
    Ok(())
}

/// Checks the review history in order and returns, for each reviewed card,
/// the schedule its last review gave it.
fn check_history(s: &Snapshot) -> (r: Result<Vec<(String, Schedule)>>)
    ensures
        (r matches Ok(v) ==> history(s@, s@.reviews.len() as int) is Ok && forall|x: Seq<char>| #[trigger] latest_of(
            history(s@, s@.reviews.len() as int)->Ok_0,
            x,
        ) == lookup(entries_view(v@), x)),
        (history(s@, s@.reviews.len() as int) matches Err(m) ==> fails_with(r, m)),
        history(s@, s@.reviews.len() as int) is Ok ==> r is Ok,
{
    let mut latest: Vec<(String, Schedule)> = Vec::new();
    let mut last_at: Option<i64> = None;
    let mut i: usize = 0;
    proof {
        assert forall|x: Seq<char>| #[trigger] latest_of(history(s@, 0)->Ok_0, x) == lookup(entries_view(latest@), x) by {
            lemma_first_where_none(entries_view(latest@), |e: (Seq<char>, Schedule)| e.0 == x);
        }
    }
    while i < s.reviews.len()
        invariant
            i <= s.reviews.len(),
            history(s@, i as int) is Ok,
            history(s@, i as int)->Ok_0.last_at == last_at,
            forall|x: Seq<char>| #[trigger] latest_of(history(s@, i as int)->Ok_0, x) == lookup(entries_view(latest@), x),
        decreases s.reviews.len() - i,
    {
        let r = &s.reviews[i];
        let ghost h = history(s@, i as int)->Ok_0;
        assert(history(s@, i + 1) == review_step(s@, h, r@));
        match check_review(s, r, &latest, last_at, Ghost(h)) {
            Err(e) => {
                proof {
                    lemma_history_error_stays(s@, i + 1, s@.reviews.len() as int);
                }
                return Err(e);
            },
            Ok(()) => {},
        }
        let ghost h2 = History { latest: h.latest.insert(r.card_id@, r.after), last_at: Some(r.at) };
        assert(history(s@, i + 1) == Ok::<History, Seq<char>>(h2));
        let ghost ev = entries_view(latest@);
        match find_entry(&latest, &r.card_id) {
            Some(j) => {
                proof {
                    assert forall|x: Seq<char>| #[trigger] lookup(ev.update(j as int, (r.card_id@, r.after)), x) == if x == r.card_id@ {
                        r.after
                    } else {
                        lookup(ev, x)
                    } by {
                        lemma_lookup_set_at(ev, j as int, r.card_id@, r.after, x);
                    }
                }
                latest.set(j, (r.card_id.clone(), r.after));
                assert(entries_view(latest@) =~= ev.update(j as int, (r.card_id@, r.after)));
            },
            None => {
                proof {
                    lemma_lookup_push(ev, r.card_id@, r.after);
                }
                latest.push((r.card_id.clone(), r.after));
                assert(entries_view(latest@) =~= ev.push((r.card_id@, r.after)));
            },
        }
        proof {
            assert forall|x: Seq<char>| #[trigger] latest_of(h2, x) == lookup(entries_view(latest@), x) by {
                if x == r.card_id@ {
                } else {
                    assert(latest_of(h2, x) == latest_of(h, x));
                }
            }
        }
        last_at = Some(r.at);
        i = i + 1;
    }
    Ok(latest)
}

/// Checks that every card has the schedule its history last gave it.
fn check_cards_history(s: &Snapshot, latest: &Vec<(String, Schedule)>, h: Ghost<History>) -> (r: Result<()>)
    requires
        forall|x: Seq<char>| #[trigger] latest_of(h@, x) == lookup(entries_view(latest@), x),
    ensures
        cards_match_history(s@, h@) ==> r is Ok,
        !cards_match_history(s@, h@) ==> fails_with(r, "学習履歴とカードの状態が一致しません。"@),
{
    let mut i: usize = 0;
    while i < s.cards.len()
        invariant
            i <= s.cards.len(),
            forall|x: Seq<char>| #[trigger] latest_of(h@, x) == lookup(entries_view(latest@), x),
            forall|k: int| 0 <= k < i ==> latest_of(h@, #[trigger] s@.cards[k].id) == s@.cards[k].schedule,
        decreases s.cards.len() - i,
    {
        if lookup_exec(latest, &s.cards[i].id) != s.cards[i].schedule {
            assert(latest_of(h@, s@.cards[i as int].id) != s@.cards[i as int].schedule);
            return Err(invalid("学習履歴とカードの状態が一致しません。"));
        }
        i = i + 1;
    }
    Ok(())
}

/// Whether the (deck, day) pair occurs in the list.
fn has_day(days: &Vec<(String, String)>, deck_id: &String, day: &String) -> (r: bool)
    ensures
        r == pairs_view(days@).contains((deck_id@, day@)),
{
    let ghost dv = pairs_view(days@);
    let mut j: usize = 0;
    while j < days.len()
        invariant
            j <= days.len(),
            dv == pairs_view(days@),
            forall|t: int| 0 <= t < j ==> dv[t] != (deck_id@, day@),
        decreases days.len() - j,
    {
        if days[j].0 == *deck_id && days[j].1 == *day {
            assert(dv[j as int] == (deck_id@, day@));
            return true;
        }
        j = j + 1;
    }
    false
}

/// Checks one bonus given the (deck, day) pairs of the bonuses before it.
fn check_bonus(s: &Snapshot, b: &Bonus, days: &Vec<(String, String)>) -> (r: Result<()>)
    ensures
        bonus_error(s@, pairs_view(days@).to_set(), b@) is None ==> r is Ok,
        (bonus_error(s@, pairs_view(days@).to_set(), b@) matches Some(m) ==> fails_with(r, m)),
{
    let dup = has_day(days, &b.deck_id, &b.day);
    let ghost dv = pairs_view(days@);
    assert(dv.to_set().contains((b.deck_id@, b.day@)) == dv.contains((b.deck_id@, b.day@)));
    let di = match find_deck_in(s, &b.deck_id) {
        None => {
            return Err(invalid("当日上乗せの単語帳または学習日が不正です。"));
        },
        Some(di) => di,
    };
    if dup {
        return Err(invalid("当日上乗せの単語帳または学習日が不正です。"));
    }
    let d = &s.decks[di];
    let over_review = match d.review_limit {
        Some(n) => n.checked_add(b.review).is_none(),
        None => false,
    };
    if d.new_limit.checked_add(b.new).is_none() || over_review {
        return Err(invalid("当日上乗せと合わせた枚数が大きすぎます。"));
    }
    if !date_valid(b.day.as_str()) {
        return Err(invalid("学習日の形式が不正です。"));
    }
    Ok(())
}

proof fn lemma_bonus_days_push(bs: Seq<BonusV>, i: int)
    requires
        0 <= i < bs.len(),
    ensures
        bonus_days(bs, i + 1) == bonus_days(bs, i).push((bs[i].deck_id, bs[i].day)),
{
    assert(bs.take(i + 1) =~= bs.take(i).push(bs[i]));
    assert(bonus_days(bs, i + 1) =~= bonus_days(bs, i).push((bs[i].deck_id, bs[i].day)));
}

proof fn lemma_pairs_push(v: Seq<(String, String)>, p: (String, String))
    ensures
        pairs_view(v.push(p)) == pairs_view(v).push((p.0@, p.1@)),
{
    assert(pairs_view(v.push(p)) =~= pairs_view(v).push((p.0@, p.1@)));
}

/// Checks the bonuses in order.
#[verifier::spinoff_prover]
#[verifier::rlimit(60)]
fn check_bonuses(s: &Snapshot) -> (r: Result<()>)
    ensures
        bonuses_error(s@, s@.bonuses.len() as int) is None ==> r is Ok,
        (bonuses_error(s@, s@.bonuses.len() as int) matches Some(m) ==> fails_with(r, m)),
{
    let ghost sv = s@;
    let mut days: Vec<(String, String)> = Vec::new();
    let mut i: usize = 0;
    assert(pairs_view(days@) =~= bonus_days(sv.bonuses, 0));
    assert(bonuses_error(sv, 0) is None);
    while i < s.bonuses.len()
        invariant
            sv == s@,
            i <= sv.bonuses.len(),
            sv.bonuses.len() == s.bonuses.len(),
            bonuses_error(sv, i as int) is None,
            pairs_view(days@) == bonus_days(sv.bonuses, i as int),
        decreases s.bonuses.len() - i,
    {
        let b = &s.bonuses[i];
        assert(b@ == sv.bonuses[i as int]);
        assert(bonuses_error(sv, i + 1) == bonus_error(sv, bonus_days(sv.bonuses, i as int).to_set(), b@));
        match check_bonus(s, b, &days) {
            Err(e) => {
                proof {
                    lemma_bonuses_error_stays(sv, i + 1, sv.bonuses.len() as int);
                }
                return Err(e);
            },
            Ok(()) => {},
        }
        proof {
            lemma_bonus_days_push(sv.bonuses, i as int);
        }
        let ghost old_days = days@;
        days.push((b.deck_id.clone(), b.day.clone()));
        proof {
            lemma_pairs_push(old_days, days@.last());
        }
        i = i + 1;
    }
    assert(bonuses_error(sv, sv.bonuses.len() as int) is None);
    Ok(())
}

/// Checks every integrity rule of a library: format and revision, settings,
/// identifiers, decks, cards, the continuity of the review history and the
/// bonuses. The error is the first rule broken.
pub fn validate_snapshot(state: &Snapshot) -> (r: Result<()>)
    ensures
        r is Ok <==> snapshot_valid(state@),
        (snapshot_error(state@) matches Some(m) ==> fails_with(r, m)),
{
    if state.schema != SCHEMA_VERSION || state.revision > 0x7FFF_FFFF_FFFF_FFFF {
        return Err(invalid("対応していないバックアップ形式です。"));
    }
    match study_day(0, state.settings.timezone.as_str(), state.settings.day_start_hour) {
        Ok(_) => {},
        Err(e) => {
            return Err(e);
        },
    }
    check_ids(state)?;
    check_decks(state)?;
    check_cards(state)?;
    let latest = check_history(state)?;
    let ghost h = history(state@, state@.reviews.len() as int)->Ok_0;
    check_cards_history(state, &latest, Ghost(h))?;
    check_bonuses(state)
}

} // verus!

verus! {

/// What opening a database of a given format version does before loading it.
#[derive(Clone, Copy, Debug, PartialEq, Eq, Structural)]
pub enum SchemaStep {
    /// A new file: create the tables of the current format.
    Create,
    /// The format without multiple-choice data: mark it current once it loads.
    Upgrade,
    /// The current format.
    Current,
}

/// The step for a database whose recorded format version is `version`;
/// a newer format than this library knows is refused.
pub fn schema_step(version: u32) -> (r: Result<SchemaStep>)
    ensures
        version > SCHEMA_VERSION ==> fails_with(
            r,
            "このアプリより新しいデータ形式です。アプリを手動更新してください。"@,
        ),
        version == 0 ==> r matches Ok(SchemaStep::Create),
        version == 1 ==> r matches Ok(SchemaStep::Upgrade),
        version == SCHEMA_VERSION ==> r matches Ok(SchemaStep::Current),
{
    if version > SCHEMA_VERSION {
        return Err(invalid("このアプリより新しいデータ形式です。アプリを手動更新してください。"));
    }
    if version == 0 {
        Ok(SchemaStep::Create)
    } else if version == 1 {
        Ok(SchemaStep::Upgrade)
    } else {
        Ok(SchemaStep::Current)
    }
}

/// The revision recorded in the database, which must not be negative.
pub fn stored_revision(revision: i64) -> (r: Result<u64>)
    ensures
        revision < 0 ==> fails_with(r, "データの版が不正です。"@),
        revision >= 0 ==> (r matches Ok(v) && v == revision),
{
    if revision < 0 {
        return Err(invalid("データの版が不正です。"));
    }
    Ok(revision as u64)
}

/// Checks a library about to be saved over revision `expected`: it must be
/// valid and newer than that revision.
pub fn check_save(state: &Snapshot, expected: u64) -> (r: Result<()>)
    ensures
        (snapshot_error(state@) matches Some(m) ==> fails_with(r, m)),
        snapshot_error(state@) is None && state@.revision <= expected ==> fails_with(
            r,
            "保存するデータの版が不正です。"@,
        ),
        r is Ok <==> snapshot_error(state@) is None && state@.revision > expected,
{
    validate_snapshot(state)?;
    if state.revision <= expected {
        return Err(invalid("保存するデータの版が不正です。"));
    }
    Ok(())
}

/// Refuses a save when the stored revision is no longer the one the change
/// was made from: another writer came first.
pub fn check_current(current: i64, expected: u64) -> (r: Result<()>)
    ensures
        current == expected ==> r is Ok,
        current != expected ==> fails_with(r, "別の操作でデータが更新されました。画面を更新してください。"@),
{
    if current < 0 || current as u64 != expected {
        return Err(invalid("別の操作でデータが更新されました。画面を更新してください。"));
    }
    Ok(())
}

/// Checks a restore of `state` previewed at revision `expected` against the
/// revision now stored.
pub fn check_restore(state: &Snapshot, expected: u64, current: u64) -> (r: Result<()>)
    ensures
        (snapshot_error(state@) matches Some(m) ==> fails_with(r, m)),
        snapshot_error(state@) is None && current != expected ==> fails_with(
            r,
            "プレビュー後にデータが変わりました。もう一度復元を確認してください。"@,
        ),
        r is Ok <==> snapshot_error(state@) is None && current == expected,
{
    validate_snapshot(state)?;
    if current != expected {
        return Err(invalid("プレビュー後にデータが変わりました。もう一度復元を確認してください。"));
    }
    Ok(())
}

/// Accepts the safety copy only when the database's integrity check answered `ok`.
pub fn check_integrity(answer: &str) -> (r: Result<()>)
    ensures
        answer@ == "ok"@ ==> r is Ok,
        answer@ != "ok"@ ==> fails_with(r, "復元前の退避データを確認できません。復元を中止しました。"@),
{
    if !text_eq(answer, "ok") {
        return Err(invalid("復元前の退避データを確認できません。復元を中止しました。"));
    }
    Ok(())
}

/// The restored library: the backup's content at the revision after the one
/// it replaces.
pub fn restored_state(state: Snapshot, expected: u64) -> (r: Result<Snapshot>)
    ensures
        expected == u64::MAX ==> fails_with(r, "データの版が範囲外です。"@),
        expected < u64::MAX ==> (r matches Ok(t) && t@ == SnapshotV { revision: (expected + 1) as u64, ..state@ }),
{
    if expected == u64::MAX {
        return Err(invalid("データの版が範囲外です。"));
    }
    let mut state = state;
    state.revision = expected + 1;
    Ok(state)
}

/// A library read in the current format: one stored in format 1, the format
/// before multiple-choice data, keeps its decks, cards, history, bonuses and
/// revision, and every card is without choices; any other is left as it is.
pub open spec fn upgraded(s: SnapshotV) -> SnapshotV {
    if s.schema == 1 {
        SnapshotV {
            schema: SCHEMA_VERSION,
            cards: s.cards.map_values(|c: CardV| CardV { choices: seq![], ..c }),
            ..s
        }
    } else {
        s
    }
}

/// Brings a library stored in format 1 (before multiple-choice data) into the
/// current format, every card without choices; leaves any other unchanged.
pub fn upgrade_snapshot(s: Snapshot) -> (r: Snapshot)
    ensures
        r@ == upgraded(s@),
{
    if s.schema != 1 {
        return s;
    }
    let Snapshot { revision, settings, decks, cards, reviews, bonuses, .. } = s;
    let ghost old_cards = cards_view(cards@);
    let mut rest = cards;
    let mut out: Vec<crate::model::Card> = Vec::new();
    let ghost all = rest@;
    assert(all.len() == rest.len());
    let mut k: usize = 0;
    while rest.len() > 0
        invariant
            k + rest.len() == all.len(),
            all.len() <= usize::MAX,
            rest@ == all.skip(k as int),
            old_cards == cards_view(all),
            out.len() == k,
            forall|t: int| 0 <= t < k ==> (#[trigger] out@[t])@ == (CardV { choices: seq![], ..old_cards[t] }),
        decreases rest.len(),
    {
        let mut c = rest.remove(0);
        assert(c@ == old_cards[k as int]);
        c.choices = Vec::new();
        assert(crate::model::choices_view(c.choices@) =~= seq![]);
        out.push(c);
        k = k + 1;
        assert(rest@ =~= all.skip(k as int));
    }
    let r = Snapshot { schema: SCHEMA_VERSION, revision, settings, decks, cards: out, reviews, bonuses };
    assert(cards_view(r.cards@) =~= old_cards.map_values(|c: CardV| CardV { choices: seq![], ..c }));
    r
}

} // verus!

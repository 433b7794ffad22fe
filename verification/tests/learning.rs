use chrono::DateTime;
use kotoba_core::{
    parse_csv, validate_snapshot, Choice, Error, Library, Mapping, NextMemory, Schedule, Settings,
    ALGORITHM,
};

fn at(s: &str) -> i64 {
    DateTime::parse_from_rfc3339(s).unwrap().timestamp()
}

/// Grades a card the way the application does: the library checks the grade
/// and the scheduler computes the new memory state.
fn grade(lib: &mut Library, id: &str, rating: u32, now: i64) -> kotoba_core::Result<()> {
    let plan = lib.grade_plan(id, rating, now)?;
    let parameters: Vec<f32> = plan.parameters.iter().map(|b| f32::from_bits(*b)).collect();
    let memory = plan.memory.map(|(s, d)| fsrs::MemoryState {
        stability: f32::from_bits(s),
        difficulty: f32::from_bits(d),
    });
    let scheduler = fsrs::FSRS::new(&parameters).map_err(|_| Error::Fsrs)?;
    let next = scheduler
        .next_states(memory, f32::from_bits(plan.retention), plan.elapsed_days)
        .map_err(|_| Error::Fsrs)?;
    let state = match rating {
        1 => next.again,
        2 => next.hard,
        3 => next.good,
        _ => next.easy,
    };
    lib.grade(
        id,
        rating,
        now,
        NextMemory {
            stability: state.memory.stability.to_bits(),
            difficulty: state.memory.difficulty.to_bits(),
            interval_days: state.interval.round().clamp(1.0, 36500.0) as i64,
        },
    )
}

fn setup() -> (Library, String, i64) {
    let mut lib = Library::new("Asia/Tokyo").unwrap();
    let now = at("2026-09-09T23:00:00+09:00");
    let deck = lib.create_deck("Study", now).unwrap();
    let csv = parse_csv(b"q,a\nQ1,A1\nQ2,A2\nQ3,A3\n", "utf-8").unwrap();
    lib.apply_import(
        lib.preview_import(
            &deck,
            &csv,
            Mapping {
                question: 0,
                answer: 1,
                explanation: None,
                id: None,
                choices: vec![],
                choice_separator: None,
            },
            now,
        )
        .unwrap(),
    )
    .unwrap();
    (lib, deck, now)
}

fn retention(value: f32) -> u32 {
    value.to_bits()
}

#[test]
fn fsrs_grading_and_undo_restore_memory_and_daily_allowance() {
    let (mut lib, deck, now) = setup();
    lib.configure_deck(&deck, retention(0.9), 1, None).unwrap();
    let id = lib.queue(&deck, now).unwrap().card_ids[0].clone();
    grade(&mut lib, &id, 3, now).unwrap();
    let card = lib.state.cards.iter().find(|c| c.id == id).unwrap();
    assert!((f32::from_bits(card.schedule.stability.unwrap()) - 2.3065).abs() < 0.0001);
    assert_eq!(card.schedule.due, Some(now + 2 * 86400));
    assert_eq!(lib.queue(&deck, now).unwrap().new_used, 1);
    assert!(lib.queue(&deck, now).unwrap().card_ids.is_empty());
    assert_eq!(lib.state.reviews[0].algorithm, ALGORITHM);
    lib.undo().unwrap();
    assert_eq!(lib.queue(&deck, now).unwrap().new_used, 0);
    assert_eq!(lib.state.reviews.len(), 0);
    assert_eq!(
        lib.state.cards.iter().find(|c| c.id == id).unwrap().schedule,
        Schedule::default()
    );
}

#[test]
fn bonus_survives_serialization_and_expires_at_four_without_resetting_normal_limit() {
    let (mut lib, deck, now) = setup();
    lib.configure_deck(&deck, retention(0.9), 1, None).unwrap();
    lib.add_bonus(&deck, 1, 0, now).unwrap();
    let q = lib.queue(&deck, now).unwrap();
    assert_eq!(q.card_ids.len(), 2);
    for id in q.card_ids {
        grade(&mut lib, &id, 3, now).unwrap();
    }
    // The stored form of the library is written by the application; here the
    // library is carried over as a copy of its state.
    let lib = Library {
        state: lib.state.clone(),
    };
    let q = lib.queue(&deck, at("2026-09-10T03:59:59+09:00")).unwrap();
    assert_eq!(q.new_limit, 2);
    assert!(q.card_ids.is_empty());
    let q = lib.queue(&deck, at("2026-09-10T04:00:00+09:00")).unwrap();
    assert_eq!(q.new_limit, 1);
    assert_eq!(q.card_ids.len(), 1);
    assert_eq!(q.new_used, 0);
}

#[test]
fn relearning_does_not_consume_a_second_slot_and_backlog_stays_visible() {
    let (mut lib, deck, now) = setup();
    lib.configure_deck(&deck, retention(0.9), 1, Some(0)).unwrap();
    let id = lib.queue(&deck, now).unwrap().card_ids[0].clone();
    grade(&mut lib, &id, 1, now).unwrap();
    assert!(lib.queue(&deck, now).unwrap().card_ids.is_empty());
    assert_eq!(lib.queue(&deck, now + 61).unwrap().card_ids, vec![id.clone()]);
    grade(&mut lib, &id, 3, now + 61).unwrap();
    let q = lib.queue(&deck, now + 61).unwrap();
    assert_eq!((q.new_used, q.review_used), (1, 0));
    let later = now + 30 * 86400;
    let q = lib.queue(&deck, later).unwrap();
    assert_eq!(q.due_reviews, 1);
    assert!(!q.card_ids.contains(&id));
    lib.add_bonus(&deck, 0, 1, later).unwrap();
    assert_eq!(lib.queue(&deck, later).unwrap().card_ids[0], id);
}

#[test]
fn invalid_rating_or_future_review_never_changes_state_and_edit_retains_history() {
    let (mut lib, deck, now) = setup();
    let id = lib.queue(&deck, now).unwrap().card_ids[0].clone();
    let before = lib.state.clone();
    assert!(grade(&mut lib, &id, 5, now).is_err());
    assert_eq!(before, lib.state);
    grade(&mut lib, &id, 4, now).unwrap();
    let before = lib.state.clone();
    assert!(grade(&mut lib, &id, 3, now + 1).is_err());
    assert_eq!(before, lib.state);
    lib.edit_card(&id, "Edited", "answer", "explanation", None)
        .unwrap();
    assert_eq!(lib.state.reviews, before.reviews);
    assert_eq!(lib.state.cards[0].schedule, before.cards[0].schedule);
    lib.set_settings(Settings {
        timezone: "Asia/Tokyo".into(),
        day_start_hour: 6,
    })
    .unwrap();
    assert_eq!(
        lib.queue(&deck, at("2026-09-10T05:59:00+09:00"))
            .unwrap()
            .new_used,
        1
    );
    assert!(lib.configure_deck(&deck, f32::NAN.to_bits(), 20, None).is_err());
}

#[test]
fn grading_then_undoing_gives_back_the_library_with_two_more_revisions() {
    let (mut lib, deck, now) = setup();
    let before = lib.state.clone();
    let id = lib.queue(&deck, now).unwrap().card_ids[0].clone();
    grade(&mut lib, &id, 2, now).unwrap();
    assert_eq!(lib.state.revision, before.revision + 1);
    assert_eq!(lib.state.reviews.len(), 1);
    assert_eq!(lib.state.reviews[0].kind, "new");
    assert_eq!(lib.state.reviews[0].before, Schedule::default());
    lib.undo().unwrap();
    let mut expected = before.clone();
    expected.revision = before.revision + 2;
    assert_eq!(lib.state, expected);
    assert_eq!(lib.undo().unwrap_err().message(), "取り消せる自己評価がありません。");
}

#[test]
fn grade_plan_refuses_in_the_documented_order() {
    let (mut lib, deck, now) = setup();
    let id = lib.queue(&deck, now).unwrap().card_ids[0].clone();
    assert_eq!(
        lib.grade_plan(&id, 0, now).unwrap_err().message(),
        "自己評価は1〜4で指定してください。"
    );
    assert_eq!(
        lib.grade_plan("missing", 3, now).unwrap_err().message(),
        "カードが見つかりません。"
    );
    let plan = lib.grade_plan(&id, 3, now).unwrap();
    assert_eq!(plan.memory, None);
    assert_eq!(plan.elapsed_days, 0);
    assert_eq!(plan.retention, kotoba_core::RETENTION_DEFAULT);
    assert_eq!(plan.parameters.len(), 21);
    grade(&mut lib, &id, 3, now).unwrap();
    assert_eq!(
        lib.grade_plan(&id, 3, now - 1).unwrap_err().message(),
        "時計が前回の学習より前になっています。端末の日時を確認してください。"
    );
    assert_eq!(
        lib.grade_plan(&id, 3, now).unwrap_err().message(),
        "このカードは現在の学習対象ではありません。"
    );
}

#[test]
fn again_is_due_after_a_minute_and_counts_a_lapse_only_after_learning() {
    let (mut lib, deck, now) = setup();
    let id = lib.queue(&deck, now).unwrap().card_ids[0].clone();
    grade(&mut lib, &id, 1, now).unwrap();
    let card = lib.state.cards.iter().find(|c| c.id == id).unwrap().clone();
    assert_eq!(card.schedule.due, Some(now + 60));
    assert_eq!(card.schedule.lapses, 0);
    assert_eq!(card.schedule.reps, 1);
    grade(&mut lib, &id, 1, now + 61).unwrap();
    let card = lib.state.cards.iter().find(|c| c.id == id).unwrap().clone();
    assert_eq!(card.schedule.lapses, 1);
    assert_eq!(card.schedule.reps, 2);
    assert_eq!(lib.state.reviews[1].kind, "repeat");
}

#[test]
fn bonus_limits_and_settings_are_checked() {
    let (mut lib, deck, now) = setup();
    assert_eq!(
        lib.add_bonus("missing", 1, 1, now).unwrap_err().message(),
        "単語帳が見つかりません。"
    );
    lib.add_bonus(&deck, 1, 2, now).unwrap();
    lib.add_bonus(&deck, 3, 4, now).unwrap();
    assert_eq!(lib.state.bonuses.len(), 1);
    assert_eq!((lib.state.bonuses[0].new, lib.state.bonuses[0].review), (4, 6));
    assert_eq!(
        lib.add_bonus(&deck, u32::MAX, 0, now).unwrap_err().message(),
        "枚数が大きすぎます。"
    );
    let before = lib.state.clone();
    assert!(lib
        .set_settings(Settings {
            timezone: "UTC".into(),
            day_start_hour: 24,
        })
        .is_err());
    assert_eq!(lib.state, before);
    assert_eq!(
        lib.configure_deck(&deck, 1.0f32.to_bits(), 20, None)
            .unwrap_err()
            .message(),
        "目標保持率は0%より大きく100%未満にしてください。"
    );
}

#[test]
fn editing_a_reviewed_card_drops_blank_choices_and_keeps_the_library_valid() {
    let (mut lib, deck, now) = setup();
    let id = lib.queue(&deck, now).unwrap().card_ids[0].clone();
    grade(&mut lib, &id, 3, now).unwrap();
    let pos = lib.state.cards.iter().position(|c| c.id == id).unwrap();
    let schedule = lib.state.cards[pos].schedule;
    let revision = lib.state.revision;
    lib.edit_card(
        &id,
        "New question",
        "New answer",
        "",
        Some(vec![
            Choice { label: "1".into(), text: "first".into() },
            Choice { label: "2".into(), text: "  ".into() },
        ]),
    )
    .unwrap();
    let card = &lib.state.cards[pos];
    assert_eq!(card.question, "New question");
    assert_eq!(card.choices.len(), 1);
    assert_eq!(card.choices[0].text, "first");
    assert_eq!(card.schedule, schedule);
    assert_eq!(lib.state.revision, revision + 1);
    validate_snapshot(&lib.state).unwrap();
}

#[test]
fn editing_without_choices_keeps_the_card_s_choices() {
    let (mut lib, deck, now) = setup();
    let id = lib.queue(&deck, now).unwrap().card_ids[0].clone();
    let pos = lib.state.cards.iter().position(|c| c.id == id).unwrap();
    lib.edit_card(&id, "Q", "A", "", Some(vec![Choice { label: "1".into(), text: "kept".into() }]))
        .unwrap();
    lib.edit_card(&id, "Q2", "A2", "", None).unwrap();
    assert_eq!(lib.state.cards[pos].question, "Q2");
    assert_eq!(lib.state.cards[pos].choices.len(), 1);
    assert_eq!(lib.state.cards[pos].choices[0].text, "kept");
}

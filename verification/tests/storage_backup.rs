use std::io::Write;
use kotoba_core::backup::decrypt_backup;
use kotoba_core::storage::{
    check_current, check_integrity, check_restore, check_save, restored_state, schema_step,
    stored_revision, SchemaStep,
};
use kotoba_core::{
    encode_backup, parse_csv, upgrade_snapshot, validate_snapshot, Choice, Error, Library, Mapping,
    NextMemory, Snapshot,
    MAX_BACKUP_BYTES,
};

fn grade(lib: &mut Library, id: &str, rating: u32, now: i64) -> kotoba_core::Result<()> {
    let plan = lib.grade_plan(id, rating, now)?;
    let parameters: Vec<f32> = plan.parameters.iter().map(|b| f32::from_bits(*b)).collect();
    let memory = plan.memory.map(|(s, d)| fsrs::MemoryState {
        stability: f32::from_bits(s),
        difficulty: f32::from_bits(d),
    });
    let scheduler = fsrs::FSRS::new(&parameters).map_err(|_| Error::Fsrs)?;
    let next = scheduler
        .next_states(memory, f32::from_bits(plan.retention), plan.elapsed_days)
        .map_err(|_| Error::Fsrs)?;
    let state = match rating {
        1 => next.again,
        2 => next.hard,
        3 => next.good,
        _ => next.easy,
    };
    lib.grade(
        id,
        rating,
        now,
        NextMemory {
            stability: state.memory.stability.to_bits(),
            difficulty: state.memory.difficulty.to_bits(),
            interval_days: state.interval.round().clamp(1.0, 36500.0) as i64,
        },
    )
}

fn populated() -> Snapshot {
    let mut lib = Library::new("Asia/Tokyo").unwrap();
    let id = lib
        .create_deck("架空の検証用単語帳", 1_789_000_000)
        .unwrap();
    let csv = parse_csv(b"q,a\n2+3,5\n", "utf-8").unwrap();
    lib.apply_import(
        lib.preview_import(
            &id,
            &csv,
            Mapping {
                question: 0,
                answer: 1,
                explanation: None,
                id: None,
                choices: vec![],
                choice_separator: None,
            },
            1_789_000_000,
        )
        .unwrap(),
    )
    .unwrap();
    let id = lib.state.cards[0].id.clone();
    grade(&mut lib, &id, 3, 1_789_000_000).unwrap();
    lib.state
}

/// The content of a backup: the library in a textual form.
fn content(state: &Snapshot) -> Vec<u8> {
    format!("{state:?}").into_bytes()
}

#[test]
fn encrypted_backup_round_trips_and_rejects_wrong_password_or_truncation() {
    let state = populated();
    let password = "synthetic test passphrase only";
    let plain = content(&state);
    let bytes = encode_backup(&state, plain.clone(), password.into()).unwrap();
    assert!(bytes.starts_with(b"age-encryption.org/v1"));
    assert!(!bytes
        .windows("架空の検証用単語帳".len())
        .any(|w| w == "架空の検証用単語帳".as_bytes()));
    assert_eq!(decrypt_backup(&bytes, password.into()).unwrap(), plain);
    assert!(decrypt_backup(&bytes, "wrong synthetic passphrase".into()).is_err());
    assert!(decrypt_backup(&bytes[..bytes.len() - 4], password.into()).is_err());
}

#[test]
fn invalid_relationships_and_impossible_memory_are_rejected_before_saving() {
    let state = populated();
    assert!(validate_snapshot(&state).is_ok());
    let mut broken = state.clone();
    broken.cards[0].deck_id = "nonexistent".into();
    assert!(validate_snapshot(&broken).is_err());
    let mut broken = state.clone();
    broken.cards[0].schedule.stability = Some(f32::NAN.to_bits());
    assert!(validate_snapshot(&broken).is_err());
    let mut broken = state.clone();
    broken.reviews.clear();
    assert!(validate_snapshot(&broken).is_err());
    let mut broken = state.clone();
    broken.cards.push(broken.cards[0].clone());
    assert!(validate_snapshot(&broken).is_err());
}

#[test]
fn backup_validation_rejects_out_of_range_timestamps_and_overflowing_limits() {
    let state = populated();
    let mut broken = state.clone();
    broken.cards[0].created_at = i64::MAX;
    assert!(validate_snapshot(&broken).is_err());
    let mut broken = state.clone();
    broken.cards[0].schedule.due = Some(i64::MAX);
    broken.reviews[0].after.due = Some(i64::MAX);
    assert!(validate_snapshot(&broken).is_err());
    let mut lib = Library { state };
    let deck = lib.state.decks[0].id.clone();
    lib.add_bonus(&deck, 1, 0, 1_789_000_000).unwrap();
    let before = lib.state.clone();
    assert!(lib
        .configure_deck(&deck, 0.9f32.to_bits(), u32::MAX, None)
        .is_err());
    assert_eq!(lib.state, before);
    lib.state.decks[0].new_limit = u32::MAX;
    assert!(validate_snapshot(&lib.state).is_err());
}

#[test]
fn validation_messages_follow_the_order_of_the_rules() {
    let state = populated();
    let mut broken = state.clone();
    broken.schema = 999;
    assert_eq!(
        validate_snapshot(&broken).unwrap_err().message(),
        "対応していないバックアップ形式です。"
    );
    let mut broken = state.clone();
    broken.cards[0].id = "not-an-id".into();
    assert_eq!(
        validate_snapshot(&broken).unwrap_err().message(),
        "データの識別子が不正または重複しています。"
    );
    let mut broken = state.clone();
    broken.reviews[0].before.reps = 7;
    assert!(validate_snapshot(&broken).is_err());
    let mut broken = state.clone();
    broken.cards[0].schedule.reps = 2;
    broken.reviews[0].after.reps = 2;
    assert!(validate_snapshot(&broken).is_err());
    let mut broken = state.clone();
    broken.settings.timezone = "Nowhere/Invalid".into();
    assert_eq!(
        validate_snapshot(&broken).unwrap_err().message(),
        "タイムゾーンが不正です。"
    );
}

#[test]
fn stale_writers_and_newer_formats_are_refused() {
    let state = populated();
    assert!(check_save(&state, state.revision - 1).is_ok());
    assert_eq!(
        check_save(&state, state.revision).unwrap_err().message(),
        "保存するデータの版が不正です。"
    );
    assert!(check_current(5, 5).is_ok());
    assert_eq!(
        check_current(6, 5).unwrap_err().message(),
        "別の操作でデータが更新されました。画面を更新してください。"
    );
    assert!(check_current(-1, u64::MAX).is_err());
    assert!(check_restore(&state, 3, 3).is_ok());
    assert_eq!(
        check_restore(&state, 3, 4).unwrap_err().message(),
        "プレビュー後にデータが変わりました。もう一度復元を確認してください。"
    );
    assert!(matches!(schema_step(0), Ok(SchemaStep::Create)));
    assert!(matches!(schema_step(1), Ok(SchemaStep::Upgrade)));
    assert!(matches!(schema_step(2), Ok(SchemaStep::Current)));
    assert_eq!(
        schema_step(3).unwrap_err().message(),
        "このアプリより新しいデータ形式です。アプリを手動更新してください。"
    );
    assert_eq!(stored_revision(7).unwrap(), 7);
    assert_eq!(
        stored_revision(-7).unwrap_err().message(),
        "データの版が不正です。"
    );
    assert!(check_integrity("ok").is_ok());
    assert!(check_integrity("*** in database main ***").is_err());
    let restored = restored_state(state.clone(), 41).unwrap();
    assert_eq!(restored.revision, 42);
    assert_eq!(restored.cards, state.cards);
    assert_eq!(
        restored_state(state, u64::MAX).unwrap_err().message(),
        "データの版が範囲外です。"
    );
}

#[test]
fn oversized_unreadable_or_invalid_backups_are_refused() {
    let state = populated();
    let mut invalid = state.clone();
    invalid.schema = 999;
    assert_eq!(
        encode_backup(&invalid, content(&state), "x".into())
            .unwrap_err()
            .message(),
        "対応していないバックアップ形式です。"
    );
    assert_eq!(
        decrypt_backup(b"not an age file", "x".into())
            .unwrap_err()
            .message(),
        "暗号化バックアップを読み取れません。"
    );
    let huge = vec![0u8; MAX_BACKUP_BYTES + 1_048_576 + 1];
    assert_eq!(
        decrypt_backup(&huge, "x".into()).unwrap_err().message(),
        "バックアップのサイズが上限を超えました。"
    );
    let too_big = vec![b'x'; MAX_BACKUP_BYTES + 1];
    assert_eq!(
        encode_backup(&state, too_big, "x".into())
            .unwrap_err()
            .message(),
        "バックアップのサイズが上限を超えました。"
    );
}

#[test]
fn review_days_and_history_continuity_are_checked() {
    let state = populated();
    let mut broken = state.clone();
    broken.reviews[0].study_day = "2026-02-30".into();
    assert_eq!(
        validate_snapshot(&broken).unwrap_err().message(),
        "学習日の形式が不正です。"
    );
    let mut broken = state.clone();
    broken.reviews[0].kind = "other".into();
    assert_eq!(
        validate_snapshot(&broken).unwrap_err().message(),
        "学習履歴の内容が不正または非対応です。"
    );
    let mut broken = state.clone();
    broken.cards[0].schedule = kotoba_core::Schedule::default();
    assert_eq!(
        validate_snapshot(&broken).unwrap_err().message(),
        "学習履歴とカードの状態が一致しません。"
    );
    let mut broken = state;
    broken.reviews[0].card_id = broken.decks[0].id.clone();
    assert_eq!(
        validate_snapshot(&broken).unwrap_err().message(),
        "学習履歴に対応するカードがありません。"
    );
}

#[test]
fn an_age_file_encrypted_to_a_key_is_refused_as_no_passphrase_backup() {
    let identity = age::x25519::Identity::generate();
    let recipient = identity.to_public();
    let encryptor =
        age::Encryptor::with_recipients(std::iter::once(&recipient as &dyn age::Recipient)).unwrap();
    let mut file = Vec::new();
    let mut writer = encryptor.wrap_output(&mut file).unwrap();
    writer.write_all(b"{}").unwrap();
    writer.finish().unwrap();
    assert_eq!(
        decrypt_backup(&file, "x".into()).unwrap_err().message(),
        "パスフレーズ形式のバックアップを選択してください。"
    );
}

#[test]
fn a_format_one_library_is_read_without_choices_and_keeps_its_history() {
    let mut state = populated();
    let before = state.clone();
    state.schema = 1;
    state.cards[0].choices = vec![Choice { label: "A".into(), text: "old".into() }];
    let upgraded = upgrade_snapshot(state);
    assert_eq!(upgraded.schema, 2);
    assert!(upgraded.cards.iter().all(|c| c.choices.is_empty()));
    assert_eq!(upgraded.reviews, before.reviews);
    assert_eq!(upgraded.cards.len(), before.cards.len());
    for (a, b) in upgraded.cards.iter().zip(before.cards.iter()) {
        assert_eq!((&a.id, &a.schedule, &a.question), (&b.id, &b.schedule, &b.question));
    }
    validate_snapshot(&upgraded).unwrap();
    let current = populated();
    assert_eq!(upgrade_snapshot(current.clone()), current);
    let mut other = populated();
    other.schema = 999;
    assert_eq!(upgrade_snapshot(other.clone()), other);
}

#[test]
fn a_valid_library_has_an_ordered_chained_history_and_existing_references() {
    let state = populated();
    validate_snapshot(&state).unwrap();
    for w in state.reviews.windows(2) {
        assert!(w[0].at <= w[1].at);
    }
    for (k, r) in state.reviews.iter().enumerate() {
        let card = state.cards.iter().find(|c| c.id == r.card_id).unwrap();
        assert_eq!(card.deck_id, r.deck_id);
        assert!((1..=4).contains(&r.rating));
        let previous = state.reviews[..k].iter().rev().find(|p| p.card_id == r.card_id);
        match previous {
            Some(p) => assert_eq!(r.before, p.after),
            None => assert_eq!(r.before, kotoba_core::Schedule::unlearned()),
        }
        assert_eq!(r.after.reps, r.before.reps + 1);
        assert_eq!(r.after.last_review, Some(r.at));
    }
    for c in &state.cards {
        let last = state.reviews.iter().rev().find(|r| r.card_id == c.id);
        match last {
            Some(r) => assert_eq!(c.schedule, r.after),
            None => assert_eq!(c.schedule, kotoba_core::Schedule::unlearned()),
        }
        assert!(state.decks.iter().any(|d| d.id == c.deck_id));
    }
}

#[test]
fn a_backup_needs_a_passphrase() {
    assert_eq!(
        kotoba_core::backup::check_passphrase("").unwrap_err().message(),
        "パスフレーズを入力してください。"
    );
    assert!(kotoba_core::backup::check_passphrase("synthetic").is_ok());
}

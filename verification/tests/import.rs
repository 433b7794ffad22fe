use kotoba_core::{
    parse_csv, validate_snapshot, Choice, Error, Library, Mapping, NextMemory,
};

fn grade(lib: &mut Library, id: &str, rating: u32, now: i64) -> kotoba_core::Result<()> {
    let plan = lib.grade_plan(id, rating, now)?;
    let parameters: Vec<f32> = plan.parameters.iter().map(|b| f32::from_bits(*b)).collect();
    let memory = plan.memory.map(|(s, d)| fsrs::MemoryState {
        stability: f32::from_bits(s),
        difficulty: f32::from_bits(d),
    });
    let scheduler = fsrs::FSRS::new(&parameters).map_err(|_| Error::Fsrs)?;
    let next = scheduler
        .next_states(memory, f32::from_bits(plan.retention), plan.elapsed_days)
        .map_err(|_| Error::Fsrs)?;
    let state = match rating {
        1 => next.again,
        2 => next.hard,
        3 => next.good,
        _ => next.easy,
    };
    lib.grade(
        id,
        rating,
        now,
        NextMemory {
            stability: state.memory.stability.to_bits(),
            difficulty: state.memory.difficulty.to_bits(),
            interval_days: state.interval.round().clamp(1.0, 36500.0) as i64,
        },
    )
}

fn mapping() -> Mapping {
    Mapping {
        question: 1,
        answer: 2,
        explanation: Some(3),
        id: Some(0),
        choices: vec![],
        choice_separator: None,
    }
}

fn library() -> (Library, String) {
    let mut lib = Library::new("Asia/Tokyo").unwrap();
    let id = lib.create_deck("算数", 1_789_000_000).unwrap();
    (lib, id)
}

#[test]
fn explicit_question_matching_resolves_reused_ids_and_preserves_history() {
    let (mut lib, id) = library();
    let csv = parse_csv(b"id,q,a,e\n1,Q1,A1,E1\n", "utf-8").unwrap();
    lib.apply_import(lib.preview_import(&id, &csv, mapping(), 100).unwrap())
        .unwrap();
    let card_id = lib.state.cards[0].id.clone();
    grade(&mut lib, &card_id, 3, 100).unwrap();
    let before = lib.state.clone();
    let csv = parse_csv(b"id,q,a,e\n1,Q1,A1,E1\n1,Q2,A2,E2\n1,Q1,A1,More\n", "utf-8").unwrap();
    let conflict = lib.preview_import(&id, &csv, mapping(), 101).unwrap();
    assert_eq!(conflict.errors.len(), 1);
    assert_eq!(conflict.errors[0].line, 3);
    assert!(conflict.errors[0].message.starts_with("2行目と同じID"));
    assert!(lib.apply_import(conflict).is_err());
    assert_eq!(lib.state, before);

    let by_question = Mapping {
        id: None,
        ..mapping()
    };
    let preview = lib.preview_import(&id, &csv, by_question, 101).unwrap();
    assert!(preview.errors.is_empty());
    assert_eq!(preview.merged_rows, 1);
    assert_eq!(preview.changes.len(), 2);
    assert_eq!(preview.changes[0].source_lines, vec![2, 4]);
    assert_eq!(preview.changes[0].after.id, card_id);
    lib.apply_import(preview).unwrap();
    assert_eq!(lib.state.reviews, before.reviews);
    assert_eq!(lib.state.cards[0].schedule, before.cards[0].schedule);
    assert_eq!(lib.state.cards[0].explanation, "E1\n\nMore");
    assert_eq!(lib.state.cards[1].question, "Q2");
    validate_snapshot(&lib.state).unwrap();
}

#[test]
fn optional_choices_support_mixed_rows_and_can_be_removed_without_resetting_learning() {
    let (mut lib, id) = library();
    let csv = parse_csv(
        b"q,a,options\nQ1,A1,\nQ2,A2,\nQ2,A2,one|two\nQ3,A3,   \n",
        "utf-8",
    )
    .unwrap();
    let mapping = Mapping {
        question: 0,
        answer: 1,
        explanation: None,
        id: None,
        choices: vec![2],
        choice_separator: Some("|".into()),
    };
    let preview = lib.preview_import(&id, &csv, mapping.clone(), 100).unwrap();
    assert!(preview.errors.is_empty());
    assert_eq!(preview.changes.len(), 3);
    assert_eq!(preview.merged_rows, 1);
    lib.apply_import(preview).unwrap();
    assert!(lib.state.cards[0].choices.is_empty());
    assert_eq!(
        lib.state.cards[1]
            .choices
            .iter()
            .map(|c| c.text.as_str())
            .collect::<Vec<_>>(),
        vec!["one", "two"]
    );
    assert!(lib.state.cards[2].choices.is_empty());
    for card_id in lib.queue(&id, 100).unwrap().card_ids {
        grade(&mut lib, &card_id, 3, 100).unwrap();
    }
    let before = lib.state.clone();
    let no_choices = Mapping {
        choices: vec![],
        choice_separator: None,
        ..mapping
    };
    let preview = lib.preview_import(&id, &csv, no_choices, 101).unwrap();
    assert!(preview.errors.is_empty());
    assert_eq!(preview.changes[1].before.as_ref().unwrap().choices.len(), 2);
    assert!(preview.changes[1].after.choices.is_empty());
    lib.apply_import(preview).unwrap();
    assert!(lib.state.cards.iter().all(|card| card.choices.is_empty()));
    assert_eq!(lib.state.reviews, before.reviews);
    for (after, before) in lib.state.cards.iter().zip(&before.cards) {
        assert_eq!(after.id, before.id);
        assert_eq!(after.schedule, before.schedule);
    }
    validate_snapshot(&lib.state).unwrap();
}

#[test]
fn question_matching_is_exact_and_more_than_999_rows_are_not_truncated() {
    let (mut lib, id) = library();
    let source = format!(
        "q,a\n{}",
        (0..1001)
            .map(|n| format!("Q{n},A{n}\n"))
            .collect::<String>()
    );
    let csv = parse_csv(source.as_bytes(), "utf-8").unwrap();
    let m = Mapping {
        question: 0,
        answer: 1,
        explanation: None,
        id: None,
        choices: vec![],
        choice_separator: None,
    };
    lib.apply_import(lib.preview_import(&id, &csv, m.clone(), 100).unwrap())
        .unwrap();
    assert_eq!(lib.state.cards.len(), 1001);
    let csv = parse_csv(b"q,a\nQ0,changed\n Q1,spaced\n", "utf-8").unwrap();
    let p = lib.preview_import(&id, &csv, m, 200).unwrap();
    assert_eq!(p.changes[0].kind, "update");
    assert_eq!(p.changes[1].kind, "new");
}

#[test]
fn duplicate_questions_merge_distinct_content_and_preserve_review_history() {
    let (mut lib, id) = library();
    let m = Mapping {
        question: 0,
        answer: 1,
        explanation: Some(2),
        id: None,
        choices: vec![],
        choice_separator: None,
    };
    let csv = parse_csv(
        "問題,答え,解説\nbank,銀行,金融機関\nbank,銀行,金融機関\nbank,土手,川沿いの土地\n"
            .as_bytes(),
        "utf-8",
    )
    .unwrap();
    let preview = lib
        .preview_import(&id, &csv, m.clone(), 1_789_000_000)
        .unwrap();
    assert!(preview.errors.is_empty(), "{:?}", preview.errors);
    assert_eq!(preview.changes.len(), 1);
    assert_eq!(preview.merged_rows, 2);
    assert_eq!(preview.changes[0].source_lines, vec![2, 3, 4]);
    assert_eq!(preview.changes[0].notes.len(), 2);
    assert_eq!(preview.changes[0].after.answer, "銀行\n\n土手");
    assert_eq!(
        preview.changes[0].after.explanation,
        "金融機関\n\n川沿いの土地"
    );
    lib.apply_import(preview).unwrap();
    let card_id = lib.state.cards[0].id.clone();
    grade(&mut lib, &card_id, 3, 1_789_000_000).unwrap();
    let before = lib.state.clone();
    let preview = lib.preview_import(&id, &csv, m, 1_789_000_100).unwrap();
    assert_eq!(preview.changes[0].kind, "unchanged");
    lib.apply_import(preview).unwrap();
    assert_eq!(lib.state.cards, before.cards);
    assert_eq!(lib.state.reviews, before.reviews);
}

#[test]
fn a_120_row_csv_with_repeated_questions_becomes_100_cards() {
    let (mut lib, id) = library();
    let source = format!(
        "q,a\n{}",
        (0..120)
            .map(|n| format!("Q{},A{}\n", n % 100, n % 100))
            .collect::<String>()
    );
    let csv = parse_csv(source.as_bytes(), "utf-8").unwrap();
    let preview = lib
        .preview_import(
            &id,
            &csv,
            Mapping {
                question: 0,
                answer: 1,
                explanation: None,
                id: None,
                choices: vec![],
                choice_separator: None,
            },
            100,
        )
        .unwrap();
    assert!(preview.errors.is_empty());
    assert_eq!(preview.merged_rows, 20);
    assert_eq!(preview.changes.len(), 100);
    lib.apply_import(preview).unwrap();
    assert_eq!(lib.state.cards.len(), 100);
}

#[test]
fn single_column_choices_preserve_blocks_or_split_explicitly_and_merge_in_order() {
    let (mut lib, id) = library();
    let csv = parse_csv(b"q,a,options,unused\nQ,A,\"A. one\r\nB. two\n\",SECRET_UNUSED\nQ,A,\"B. two\nC. three\",SECRET_UNUSED\n", "utf-8").unwrap();
    let mut m = Mapping {
        question: 0,
        answer: 1,
        explanation: None,
        id: None,
        choices: vec![2],
        choice_separator: None,
    };
    let preview = lib.preview_import(&id, &csv, m.clone(), 100).unwrap();
    assert!(preview.errors.is_empty());
    assert_eq!(preview.changes[0].source_lines, vec![2, 5]);
    assert_eq!(
        preview.changes[0].after.choices[0],
        Choice {
            label: "options".into(),
            text: "A. one\r\nB. two\n".into(),
        }
    );
    m.choice_separator = Some("\n".into());
    let preview = lib.preview_import(&id, &csv, m.clone(), 100).unwrap();
    assert_eq!(
        preview.changes[0]
            .after
            .choices
            .iter()
            .map(|c| c.text.as_str())
            .collect::<Vec<_>>(),
        vec!["A. one", "B. two", "C. three"]
    );
    lib.apply_import(preview).unwrap();
    assert!(!format!("{:?}", lib.state).contains("SECRET_UNUSED"));
    let card = lib.state.cards[0].id.clone();
    grade(&mut lib, &card, 3, 100).unwrap();
    let before = lib.state.clone();
    let updated = parse_csv(b"q,a,options\nQ,A,\"A. one\nD. four\"\n", "utf-8").unwrap();
    let preview = lib.preview_import(&id, &updated, m.clone(), 101).unwrap();
    assert_eq!(preview.changes[0].kind, "update");
    lib.apply_import(preview).unwrap();
    assert_eq!(lib.state.cards[0].id, card);
    assert_eq!(lib.state.cards[0].schedule, before.cards[0].schedule);
    assert_eq!(lib.state.reviews, before.reviews);
    assert_eq!(lib.state.cards[0].choices[1].text, "D. four");
    assert_eq!(
        lib.preview_import(&id, &updated, m, 102).unwrap().changes[0].kind,
        "unchanged"
    );
}

#[test]
fn custom_choice_separators_are_literal_and_column_roles_cannot_overlap() {
    let (lib, id) = library();
    let csv = parse_csv(
        b"q,a,options,extra\nQ,A,A. one||B. two|||B. two|,Other\n",
        "utf-8",
    )
    .unwrap();
    let m = Mapping {
        question: 0,
        answer: 1,
        explanation: None,
        id: None,
        choices: vec![2],
        choice_separator: Some("|".into()),
    };
    let preview = lib.preview_import(&id, &csv, m.clone(), 100).unwrap();
    assert_eq!(preview.changes[0].after.choices.len(), 2);
    assert_eq!(preview.changes[0].after.choices[1].text, "B. two");
    for choices in [vec![0], vec![2, 2], vec![4]] {
        assert!(lib
            .preview_import(
                &id,
                &csv,
                Mapping {
                    choices,
                    ..m.clone()
                },
                100
            )
            .is_err());
    }
    assert!(lib
        .preview_import(
            &id,
            &csv,
            Mapping {
                choice_separator: Some(String::new()),
                ..m.clone()
            },
            100
        )
        .is_err());
    let preview = lib
        .preview_import(
            &id,
            &csv,
            Mapping {
                choices: vec![3, 2],
                choice_separator: None,
                ..m
            },
            100,
        )
        .unwrap();
    assert_eq!(preview.changes[0].after.choices[0].label, "options");
    assert_eq!(preview.changes[0].after.choices[1].label, "extra");
}

#[test]
fn repeated_ids_merge_the_same_question_but_conflicting_questions_still_block_apply() {
    let (mut lib, id) = library();
    let csv = parse_csv(b"id,q,a,e\n1,Q,A,E\n1,Q,A,E\n2,Q,A,E\n", "utf-8").unwrap();
    let preview = lib.preview_import(&id, &csv, mapping(), 100).unwrap();
    assert!(preview.errors.is_empty());
    assert_eq!(preview.changes.len(), 2);
    assert_eq!(preview.merged_rows, 1);
    lib.apply_import(preview).unwrap();
    let before = lib.state.clone();
    let csv = parse_csv(
        b"id,q,a,e\n1,Q,A,E\n1,Different,A,E\n1,Another,A,E\n",
        "utf-8",
    )
    .unwrap();
    let preview = lib.preview_import(&id, &csv, mapping(), 101).unwrap();
    assert_eq!(preview.errors.len(), 2);
    assert_eq!(preview.errors[0].line, 3);
    assert_eq!(preview.errors[1].line, 4);
    assert!(preview
        .errors
        .iter()
        .all(|e| e.message.starts_with("2行目と同じID")));
    assert!(lib.apply_import(preview).is_err());
    assert_eq!(lib.state, before);
}

#[test]
fn cp932_and_bom_decode_but_invalid_required_fields_block_import() {
    let (lib, id) = library();
    let (bytes, _, _) = encoding_rs::SHIFT_JIS.encode("問題,答え\n挨拶,おはよう\n");
    assert_eq!(parse_csv(&bytes, "cp932").unwrap().rows[0][0], "挨拶");
    let csv = parse_csv("\u{feff}q,a\n,answer\n".as_bytes(), "utf-8").unwrap();
    assert_eq!(csv.headers[0], "q");
    assert!(!lib
        .preview_import(
            &id,
            &csv,
            Mapping {
                question: 0,
                answer: 1,
                explanation: None,
                id: None,
                choices: vec![],
                choice_separator: None,
            },
            100
        )
        .unwrap()
        .errors
        .is_empty());
    assert!(parse_csv(&[0xff], "utf-8").is_err());
    assert!(parse_csv(b"q,a\nx,y,z\n", "utf-8").is_err());
}

#[test]
fn malformed_quotes_are_rejected_and_multiline_records_report_source_line_numbers() {
    assert!(parse_csv(b"q,a\n\"unfinished,answer\n", "utf-8").is_err());
    assert!(parse_csv(b"q,a\n\"closed\"junk,answer\n", "utf-8").is_err());
    let (lib, id) = library();
    let csv = parse_csv(b"q,a\n\"line1\nline2\",answer\n,last\n", "utf-8").unwrap();
    let preview = lib
        .preview_import(
            &id,
            &csv,
            Mapping {
                question: 0,
                answer: 1,
                explanation: None,
                id: None,
                choices: vec![],
                choice_separator: None,
            },
            100,
        )
        .unwrap();
    assert_eq!(preview.errors[0].line, 4);
}

#[test]
fn stale_preview_and_missing_deck_are_refused_without_change() {
    let (mut lib, id) = library();
    let csv = parse_csv(b"q,a\nQ,A\n", "utf-8").unwrap();
    let m = Mapping {
        question: 0,
        answer: 1,
        explanation: None,
        id: None,
        choices: vec![],
        choice_separator: None,
    };
    assert_eq!(
        lib.preview_import("missing", &csv, m.clone(), 100)
            .unwrap_err()
            .message(),
        "単語帳が見つかりません。"
    );
    let preview = lib.preview_import(&id, &csv, m.clone(), 100).unwrap();
    assert_eq!(preview.missing, 0);
    assert_eq!(preview.changes[0].kind, "new");
    lib.create_deck("another", 100).unwrap();
    let before = lib.state.clone();
    assert_eq!(
        lib.apply_import(preview).unwrap_err().message(),
        "プレビュー後にデータが変わりました。もう一度プレビューしてください。"
    );
    assert_eq!(lib.state, before);
    let preview = lib.preview_import(&id, &csv, m, 100).unwrap();
    lib.apply_import(preview).unwrap();
    assert_eq!(lib.state.revision, before.revision + 1);
    assert_eq!(lib.state.decks[0].mapping.as_ref().unwrap().question, 0);
}

#[test]
fn csv_quote_checks_report_the_line_of_the_problem() {
    assert!(kotoba_core::validate_csv_quotes("q,a\n\"ok\",b\n").is_ok());
    assert!(kotoba_core::validate_csv_quotes("q,a\n\"open,b\n").is_err());
    assert!(kotoba_core::validate_csv_quotes("q,a\n\"x\"y,b\n").is_err());
    assert!(kotoba_core::validate_csv_quotes("").is_ok());
}

#[test]
fn append_unique_keeps_first_occurrences_in_order() {
    let mut values = vec!["a".to_string()];
    kotoba_core::append_unique(&mut values, "b".into());
    kotoba_core::append_unique(&mut values, "a".into());
    kotoba_core::append_unique(&mut values, "b".into());
    assert_eq!(values, vec!["a", "b"]);
}

#[test]
fn mapping_helper_uses_the_id_column_only_when_asked() {
    let with_ids = kotoba_core::mapping(true);
    assert_eq!((with_ids.question, with_ids.answer, with_ids.id), (1, 2, Some(0)));
    assert!(with_ids.choices.is_empty() && with_ids.choice_separator.is_none());
    assert_eq!(kotoba_core::mapping(false).id, None);
}

#[test]
fn merged_rows_note_how_many_distinct_answers_and_explanations_were_joined() {
    let (lib, id) = library();
    let csv = parse_csv(
        "問題,答え,解説\nbank,銀行,金融機関\nbank,土手,川沿いの土地\nbank,銀行,堤防\n".as_bytes(),
        "utf-8",
    )
    .unwrap();
    let m = Mapping {
        question: 0,
        answer: 1,
        explanation: Some(2),
        id: None,
        choices: vec![],
        choice_separator: None,
    };
    let preview = lib.preview_import(&id, &csv, m, 100).unwrap();
    assert_eq!(
        preview.changes[0].notes,
        vec![
            "異なる答えを2件まとめています。内容を確認してください。".to_string(),
            "異なる解説を3件まとめています。内容を確認してください。".to_string(),
        ]
    );
    assert_eq!(preview.changes[0].after.explanation, "金融機関\n\n川沿いの土地\n\n堤防");
}

#[test]
fn deck_names_are_trimmed_and_limited() {
    let mut lib = Library::new("UTC").unwrap();
    let id = lib.create_deck("  語彙  ", 100).unwrap();
    assert_eq!(lib.state.decks[0].name, "語彙");
    assert_eq!(lib.state.decks[0].id, id);
    assert_eq!(lib.state.decks[0].retention, 0.9f32.to_bits());
    assert_eq!(lib.state.decks[0].new_limit, 20);
    let parameters: Vec<u32> = fsrs::DEFAULT_PARAMETERS.iter().map(|p| p.to_bits()).collect();
    assert_eq!(lib.state.decks[0].parameters, parameters);
    assert_eq!(
        lib.create_deck("   ", 100).unwrap_err().message(),
        "単語帳名を1〜200文字で入力してください。"
    );
    assert!(lib.create_deck(&"あ".repeat(201), 100).is_err());
    assert!(lib.create_deck(&"あ".repeat(200), 100).is_ok());
    validate_snapshot(&lib.state).unwrap();
}

#[test]
fn applying_an_import_keeps_a_reviewed_library_valid() {
    let (mut lib, id) = library();
    let csv = parse_csv(b"id,q,a,e\n1,Q1,A1,E1\n2,Q2,A2,E2\n", "utf-8").unwrap();
    lib.apply_import(lib.preview_import(&id, &csv, mapping(), 100).unwrap())
        .unwrap();
    let first = lib.state.cards[0].id.clone();
    grade(&mut lib, &first, 3, 200).unwrap();
    validate_snapshot(&lib.state).unwrap();
    let csv = parse_csv(b"id,q,a,e\n1,Q1,A1 changed,E1\n3,Q3,A3,E3\n", "utf-8").unwrap();
    let preview = lib.preview_import(&id, &csv, mapping(), 300).unwrap();
    assert_eq!(preview.changes.len(), 2);
    assert_eq!(preview.changes[0].kind, "update");
    assert_eq!(preview.changes[1].kind, "new");
    lib.apply_import(preview).unwrap();
    assert_eq!(lib.state.cards.len(), 3);
    assert_eq!(lib.state.cards[0].id, first);
    assert_eq!(lib.state.cards[0].answer, "A1 changed");
    assert_eq!(lib.state.cards[0].schedule.reps, 1);
    assert_eq!(lib.state.cards[2].schedule.reps, 0);
    assert_eq!(lib.state.cards[2].created_at, 300);
    validate_snapshot(&lib.state).unwrap();
}

#[test]
fn every_parsed_row_has_the_header_width_and_lines_never_go_back() {
    let csv = parse_csv(b"q,a\n\"multi\nline\",x\n\ny,z\n", "utf-8").unwrap();
    assert!(csv.rows.iter().all(|r| r.len() == csv.headers.len()));
    assert_eq!(csv.rows.len(), 2);
    assert_eq!(csv.row_lines[0], 2);
    assert!(csv.row_lines[1] > csv.row_lines[0]);
    let err = parse_csv(b"q,a\nx,y,z\n", "utf-8").unwrap_err();
    assert!(err.message().contains("列数または書式が一致しません"));
}

#[test]
fn previewing_the_applied_csv_again_finds_every_card_unchanged() {
    let (mut lib, id) = library();
    let csv = parse_csv(b"id,q,a,e\n1,Q1,A1,E1\n2,Q2,A2,\n1,Q1,A1b,E1\n", "utf-8").unwrap();
    let first = lib.preview_import(&id, &csv, mapping(), 100).unwrap();
    assert!(first.errors.is_empty());
    let written: Vec<_> = first.changes.iter().map(|c| c.after.clone()).collect();
    lib.apply_import(first).unwrap();
    let again = lib.preview_import(&id, &csv, mapping(), 200).unwrap();
    assert!(again.errors.is_empty());
    assert_eq!(again.changes.len(), written.len());
    for (c, w) in again.changes.iter().zip(written.iter()) {
        assert_eq!(c.kind, "unchanged");
        assert_eq!(c.before.as_ref(), Some(w));
        assert_eq!(&c.after, w);
    }
}

#[test]
fn numbers_are_written_in_decimal_without_leading_zeros() {
    use_decimal();
}

fn use_decimal() {
    assert_eq!(kotoba_core::text::decimal_u64(0), "0");
    assert_eq!(kotoba_core::text::decimal_u64(7), "7");
    assert_eq!(kotoba_core::text::decimal_u64(1024), "1024");
    assert_eq!(kotoba_core::text::decimal_u64(u64::MAX), u64::MAX.to_string());
}

#[test]
fn crlf_rows_report_rising_lines_one_behind() {
    let csv = parse_csv(b"q,a\r\nx,y\r\n\r\n\"m\r\nl\",z\r\nw,v", "utf-8").unwrap();
    assert_eq!(csv.row_lines, vec![1usize, 2, 5]);
    let lf = parse_csv(b"q,a\nx,y\n\n\"m\nl\",z\nw,v", "utf-8").unwrap();
    assert_eq!(lf.row_lines, vec![2usize, 3, 6]);
}

use kotoba_core::{
    parse_csv, take_restore, Error, ImportCache, JobStatus, Library, Mapping, NextMemory,
    OptimizationJob, RestoreCandidate, Settings,
};

fn grade(lib: &mut Library, id: &str, rating: u32, now: i64) -> kotoba_core::Result<()> {
    let plan = lib.grade_plan(id, rating, now)?;
    let parameters: Vec<f32> = plan.parameters.iter().map(|b| f32::from_bits(*b)).collect();
    let memory = plan.memory.map(|(s, d)| fsrs::MemoryState {
        stability: f32::from_bits(s),
        difficulty: f32::from_bits(d),
    });
    let scheduler = fsrs::FSRS::new(&parameters).map_err(|_| Error::Fsrs)?;
    let next = scheduler
        .next_states(memory, f32::from_bits(plan.retention), plan.elapsed_days)
        .map_err(|_| Error::Fsrs)?;
    let state = match rating {
        1 => next.again,
        2 => next.hard,
        3 => next.good,
        _ => next.easy,
    };
    lib.grade(
        id,
        rating,
        now,
        NextMemory {
            stability: state.memory.stability.to_bits(),
            difficulty: state.memory.difficulty.to_bits(),
            interval_days: state.interval.round().clamp(1.0, 36500.0) as i64,
        },
    )
}

/// The session as the application keeps it: the stored library, the import
/// cache and the restore waiting for confirmation. `restart` keeps only what
/// is stored.
struct App {
    lib: Library,
    imports: ImportCache,
    restore: Option<RestoreCandidate>,
    selections: usize,
}

struct Preview {
    token: String,
    errors: usize,
    kinds: Vec<String>,
}

impl App {
    fn new() -> App {
        App {
            lib: Library::new("UTC").unwrap(),
            imports: ImportCache::new(),
            restore: None,
            selections: 0,
        }
    }

    fn restart(self) -> App {
        App {
            lib: self.lib,
            imports: ImportCache::new(),
            restore: None,
            selections: self.selections,
        }
    }

    fn deck(&mut self, name: &str) -> String {
        self.lib.create_deck(name, 100).unwrap()
    }

    fn source(&mut self, text: &str) -> String {
        self.selections += 1;
        let token = format!("source-{}", self.selections);
        self.imports
            .select(token.clone(), parse_csv(text.as_bytes(), "utf-8").unwrap());
        token
    }

    fn preview(&mut self, deck: &str, token: &str, mapping: Mapping) -> kotoba_core::Result<Preview> {
        let token = self.imports.preview(&self.lib, token, deck, mapping, 101)?;
        let (_, p) = self.imports.preview.as_ref().unwrap();
        Ok(Preview {
            token,
            errors: p.errors.len(),
            kinds: p.changes.iter().map(|c| c.kind.clone()).collect(),
        })
    }

    fn apply(&mut self, candidate: &Preview) -> kotoba_core::Result<()> {
        let preview = self.imports.preview_for(&candidate.token)?;
        self.lib.apply_import(preview)?;
        self.imports.applied(&candidate.token);
        Ok(())
    }
}

fn mapping(ids: bool) -> Mapping {
    Mapping {
        question: 1,
        answer: 2,
        explanation: None,
        id: if ids { Some(0) } else { None },
        choices: vec![],
        choice_separator: None,
    }
}

#[test]
fn failing_to_regenerate_a_preview_invalidates_the_previous_candidate() {
    let mut app = App::new();
    let deck = app.deck("Synthetic");
    let token = app.source("id,q,a\n1,Q,A\n");
    let valid = app.preview(&deck, &token, mapping(true)).unwrap();
    let before = app.lib.state.clone();
    assert!(app
        .preview(
            &deck,
            &token,
            Mapping {
                id: Some(1),
                ..mapping(true)
            }
        )
        .is_err());
    assert!(
        app.apply(&valid).is_err(),
        "a failed new column assignment must invalidate the old preview"
    );
    assert_eq!(app.lib.state, before);
}

#[test]
fn shared_ids_or_questions_do_not_cross_decks_and_mapping_survives_restart() {
    for ids in [true, false] {
        let mut app = App::new();
        let left = app.deck("Same name");
        let right = app.deck("Same name");
        for deck in [&left, &right] {
            let token = app.source("id,q,a\n001,Same question,First answer\n");
            let candidate = app.preview(deck, &token, mapping(ids)).unwrap();
            app.apply(&candidate).unwrap();
            let id = app
                .lib
                .state
                .cards
                .iter()
                .find(|c| &c.deck_id == deck)
                .unwrap()
                .id
                .clone();
            grade(&mut app.lib, &id, 3, 102).unwrap();
        }
        let before = app.lib.state.clone();
        let token = app.source("id,q,a\n001,Same question,Updated answer\n");
        let candidate = app.preview(&left, &token, mapping(ids)).unwrap();
        assert_eq!(candidate.kinds[0], "update");
        app.apply(&candidate).unwrap();
        assert!(app.apply(&candidate).is_err());
        let app = app.restart();
        let after = app.lib.state.clone();
        assert_eq!(after.cards.len(), 2);
        assert_eq!(after.reviews, before.reviews);
        for (old, new) in before.cards.iter().zip(&after.cards) {
            assert_eq!(old.id, new.id);
            assert_eq!(old.schedule, new.schedule);
            if new.deck_id == left {
                assert_eq!(new.answer, "Updated answer");
            } else {
                assert_eq!(new, old);
            }
        }
        assert!(after.decks.iter().all(|d| d.mapping == Some(mapping(ids))));
    }
}

#[test]
fn only_the_latest_preview_of_the_selected_source_can_apply_to_its_own_deck() {
    let mut app = App::new();
    let left = app.deck("Same name");
    let right = app.deck("Same name");
    let token = app.source("id,q,a\n1,Q,A\n");
    let old = app.preview(&left, &token, mapping(true)).unwrap();
    let current = app.preview(&right, &token, mapping(true)).unwrap();
    assert!(app.apply(&old).is_err());
    app.apply(&current).unwrap();
    let state = app.lib.state.clone();
    assert_eq!(state.cards.len(), 1);
    assert_eq!(state.cards[0].deck_id, right);
    let token = app.source("id,q,a\n1,Q,Second\n");
    let replaced = app.preview(&right, &token, mapping(true)).unwrap();
    app.source("id,q,a\n2,Other,New source\n");
    assert!(app.apply(&replaced).is_err());
    assert_eq!(app.lib.state, state);
}

#[test]
fn an_outdated_source_request_cannot_replace_a_valid_current_preview() {
    let mut app = App::new();
    let deck = app.deck("Synthetic");
    let old_source = app.source("id,q,a\n1,Old,A\n");
    let current_source = app.source("id,q,a\n2,Current,B\n");
    assert_ne!(old_source, current_source);
    let current = app.preview(&deck, &current_source, mapping(true)).unwrap();
    assert!(app.preview(&deck, &old_source, mapping(true)).is_err());
    app.apply(&current).unwrap();
    assert_eq!(app.lib.state.cards[0].question, "Current");
}

#[test]
fn content_errors_block_all_rows_but_an_explicit_question_preview_can_recover() {
    let mut app = App::new();
    let deck = app.deck("Synthetic");
    let token = app.source("id,q,a\n,Blank ID,A\n1,Q1,A\n1,Q2,B\n");
    let before = app.lib.state.clone();
    let invalid = app.preview(&deck, &token, mapping(true)).unwrap();
    assert_eq!(invalid.errors, 2);
    assert!(app.apply(&invalid).is_err());
    assert_eq!(app.lib.state, before);
    let valid = app.preview(&deck, &token, mapping(false)).unwrap();
    assert_eq!(valid.errors, 0);
    assert!(app.apply(&invalid).is_err());
    app.apply(&valid).unwrap();
    assert_eq!(app.lib.state.cards.len(), 3);
    assert_eq!(app.lib.state.decks[0].mapping, Some(mapping(false)));
}

#[test]
fn every_intervening_mutation_keeps_stale_imports_from_reverting_current_data() {
    for action in [
        "grade", "edit", "bonus", "configure", "settings", "create", "delete", "restore",
    ] {
        let mut app = App::new();
        let deck = app.deck("Synthetic");
        let token = app.source("id,q,a\n1,Q,A\n");
        let first = app.preview(&deck, &token, mapping(true)).unwrap();
        app.apply(&first).unwrap();
        let card = app.lib.state.cards[0].id.clone();
        let token = app.source("id,q,a\n1,Q,Changed\n");
        let stale = app.preview(&deck, &token, mapping(true)).unwrap();
        match action {
            "grade" => grade(&mut app.lib, &card, 3, 103).unwrap(),
            "edit" => app
                .lib
                .edit_card(&card, "Edited", "Keep", "", None)
                .unwrap(),
            "bonus" => app.lib.add_bonus(&deck, 5, 0, 103).unwrap(),
            "configure" => app
                .lib
                .configure_deck(&deck, 0.8f32.to_bits(), 10, Some(30))
                .unwrap(),
            "settings" => app
                .lib
                .set_settings(Settings {
                    timezone: "UTC".into(),
                    day_start_hour: 5,
                })
                .unwrap(),
            "create" => {
                app.lib.create_deck("Other", 103).unwrap();
            }
            "delete" => app.lib.delete_deck(&deck).unwrap(),
            "restore" => {
                let revision = app.lib.state.revision;
                app.restore = Some(RestoreCandidate {
                    token: "restore".into(),
                    revision,
                    snapshot: Library::new("UTC").unwrap().state,
                });
                let candidate = take_restore(&mut app.restore, "restore").unwrap();
                kotoba_core::storage::check_restore(
                    &candidate.snapshot,
                    candidate.revision,
                    app.lib.state.revision,
                )
                .unwrap();
                app.lib.state =
                    kotoba_core::storage::restored_state(candidate.snapshot, candidate.revision)
                        .unwrap();
                app.imports.discard();
            }
            _ => unreachable!(),
        }
        let after = app.lib.state.clone();
        assert!(app.apply(&stale).is_err(), "action={action}");
        assert_eq!(app.lib.state, after, "action={action}");
    }
}

#[test]
fn preview_tokens_are_discarded_after_cancellation_and_restart() {
    let mut app = App::new();
    let deck = app.deck("Synthetic");
    let token = app.source("id,q,a\n1,Q,A\n");
    let candidate = app.preview(&deck, &token, mapping(true)).unwrap();
    app.imports.discard();
    assert!(app.apply(&candidate).is_err());
    let token = app.source("id,q,a\n1,Q,A\n");
    let candidate = app.preview(&deck, &token, mapping(true)).unwrap();
    let mut app = app.restart();
    assert!(app.apply(&candidate).is_err());
    assert!(app.lib.state.cards.is_empty());
}

#[test]
fn cancellation_still_discards_a_result_that_just_finished() {
    let mut lib = Library::new("UTC").unwrap();
    let deck = lib.create_deck("Synthetic", 100).unwrap();
    let before = lib.state.clone();
    let mut job = OptimizationJob::new();
    job.start(&lib, &deck).unwrap();
    let parameters: Vec<u32> = fsrs::DEFAULT_PARAMETERS.iter().map(|p| p.to_bits()).collect();
    job.finish(false, Ok(parameters));
    assert_eq!(job.status_text(), "ready");
    job.cancel();
    let aborted = true;
    assert!(job.result(aborted).is_err());
    assert!(job.result(false).is_err());
    assert_eq!(lib.state, before);
    assert_eq!(job.status_text(), "cancelled");
}

#[test]
fn stale_preview_can_be_regenerated_without_reselecting_the_csv() {
    let mut lib = Library::new("UTC").unwrap();
    let id = lib.create_deck("Synthetic", 100).unwrap();
    let mut cache = ImportCache::new();
    cache.select("source".into(), parse_csv(b"q,a\nx,y\n", "utf-8").unwrap());
    let request = || Mapping {
        question: 0,
        answer: 1,
        explanation: None,
        id: None,
        choices: vec![],
        choice_separator: None,
    };
    let token = cache.preview(&lib, "source", &id, request(), 100).unwrap();
    lib.create_deck("Another", 101).unwrap();
    let preview = cache.preview_for(&token).unwrap();
    assert!(lib.apply_import(preview).is_err());
    assert!(lib.state.cards.is_empty());
    assert!(cache.preview(&lib, "source", &id, request(), 103).is_ok());
}

#[test]
fn training_jobs_refuse_overlap_and_apply_only_ready_results() {
    let mut lib = Library::new("UTC").unwrap();
    let deck = lib.create_deck("Synthetic", 100).unwrap();
    let mut job = OptimizationJob::new();
    assert_eq!(job.status_text(), "idle");
    assert_eq!(
        job.start(&lib, "missing").unwrap_err().message(),
        "単語帳が見つかりません。"
    );
    job.start(&lib, &deck).unwrap();
    assert_eq!(job.status, JobStatus::Running);
    assert_eq!(job.message, "端末内で計算しています。");
    assert_eq!(
        job.start(&lib, &deck).unwrap_err().message(),
        "現在の計算が終わるか、中断してから再実行してください。"
    );
    assert_eq!(
        job.result(false).unwrap_err().message(),
        "適用できる計算結果がありません。"
    );
    job.finish(false, Err(kotoba_core::invalid("計算を中断しました。")));
    assert_eq!(job.status_text(), "failed");
    assert_eq!(job.message, "計算を中断しました。");
    job.start(&lib, &deck).unwrap();
    job.finish(true, Ok(vec![1; 21]));
    assert_eq!(job.status_text(), "cancelled");
    job.start(&lib, &deck).unwrap();
    let parameters: Vec<u32> = fsrs::DEFAULT_PARAMETERS.iter().map(|p| p.to_bits()).collect();
    job.finish(false, Ok(parameters.clone()));
    let (d, revision, p) = job.result(false).unwrap();
    assert_eq!((d.as_str(), revision), (deck.as_str(), lib.state.revision));
    lib.apply_parameters(&d, p, revision).unwrap();
    job.applied();
    assert_eq!(job.status_text(), "applied");
    assert!(job.parameters.is_none());
    assert_eq!(lib.state.decks[0].parameters, parameters);
}

#[test]
fn a_restore_is_taken_only_with_its_token() {
    let mut slot = Some(RestoreCandidate {
        token: "t".into(),
        revision: 3,
        snapshot: Library::new("UTC").unwrap().state,
    });
    assert_eq!(
        take_restore(&mut slot, "other").unwrap_err().message(),
        "復元内容をもう一度確認してください。"
    );
    assert!(slot.is_some());
    let taken = take_restore(&mut slot, "t").unwrap();
    assert_eq!(taken.revision, 3);
    assert!(slot.is_none());
    assert!(take_restore(&mut slot, "t").is_err());
}

#[test]
fn queues_list_every_deck_in_order() {
    let mut lib = Library::new("UTC").unwrap();
    let a = lib.create_deck("A", 100).unwrap();
    let b = lib.create_deck("B", 100).unwrap();
    let queues = lib.queues(100).unwrap();
    assert_eq!(queues.len(), 2);
    assert_eq!((queues[0].0.as_str(), queues[1].0.as_str()), (a.as_str(), b.as_str()));
    assert!(queues.iter().all(|(_, q)| q.card_ids.is_empty() && q.day == "1969-12-31"));
}

use kotoba_core::{
    empty_forecast, forecast_days, parse_csv, validate_snapshot, Analytics, Error, Library, Mapping,
    NextMemory,
    Simulation,
};

fn grade(lib: &mut Library, id: &str, rating: u32, now: i64) -> kotoba_core::Result<()> {
    let plan = lib.grade_plan(id, rating, now)?;
    let parameters: Vec<f32> = plan.parameters.iter().map(|b| f32::from_bits(*b)).collect();
    let memory = plan.memory.map(|(s, d)| fsrs::MemoryState {
        stability: f32::from_bits(s),
        difficulty: f32::from_bits(d),
    });
    let scheduler = fsrs::FSRS::new(&parameters).map_err(|_| Error::Fsrs)?;
    let next = scheduler
        .next_states(memory, f32::from_bits(plan.retention), plan.elapsed_days)
        .map_err(|_| Error::Fsrs)?;
    let state = match rating {
        1 => next.again,
        2 => next.hard,
        3 => next.good,
        _ => next.easy,
    };
    lib.grade(
        id,
        rating,
        now,
        NextMemory {
            stability: state.memory.stability.to_bits(),
            difficulty: state.memory.difficulty.to_bits(),
            interval_days: state.interval.round().clamp(1.0, 36500.0) as i64,
        },
    )
}

/// The forgetting curve as the application draws it from the library's basis.
fn curve(lib: &Library, id: &str, now: i64) -> kotoba_core::Result<Vec<(u32, f32)>> {
    Ok(match lib.curve_basis(id, now)? {
        None => vec![],
        Some(basis) => {
            let elapsed = basis.elapsed_seconds as f32 / 86400.0;
            (0..=30)
                .map(|days| {
                    (
                        days,
                        fsrs::current_retrievability(
                            fsrs::MemoryState {
                                stability: f32::from_bits(basis.stability),
                                difficulty: f32::from_bits(basis.difficulty),
                            },
                            elapsed + days as f32,
                            f32::from_bits(basis.decay),
                        ),
                    )
                })
                .collect()
        }
    })
}

/// The thirty-day forecast as the application computes it.
fn forecast(analytics: &Analytics, now: i64) -> Vec<kotoba_core::ForecastDay> {
    match &analytics.simulation {
        None => empty_forecast(),
        Some(simulation) => {
            let result = simulate(simulation, now);
            forecast_days(&result.review_cnt_per_day, &result.learn_cnt_per_day)
        }
    }
}

fn simulate(simulation: &Simulation, now: i64) -> fsrs::SimulationResult {
    let parameters: Vec<f32> = simulation
        .parameters
        .iter()
        .map(|b| f32::from_bits(*b))
        .collect();
    let shared = std::sync::Arc::new(parameters.clone());
    let retention = f32::from_bits(simulation.retention);
    let cards = simulation
        .cards
        .iter()
        .map(|c| match c.memory {
            Some(m) => fsrs::Card {
                id: c.id,
                stability: f32::from_bits(m.stability),
                difficulty: f32::from_bits(m.difficulty),
                last_date: (m.last_review - now) as f32 / 86400.0,
                due: ((m.due - now) as f32 / 86400.0).max(0.0),
                interval: (m.due - m.last_review) as f32 / 86400.0,
                lapses: m.lapses,
                desired_retention: retention,
                parameters: shared.clone(),
            },
            None => fsrs::Card {
                id: c.id,
                parameters: shared.clone(),
                desired_retention: retention,
                ..Default::default()
            },
        })
        .collect();
    fsrs::simulate(
        &fsrs::SimulatorConfig {
            deck_size: simulation.deck_size,
            learn_span: 30,
            learn_limit: simulation.learn_limit,
            review_limit: simulation.review_limit,
            new_cards_ignore_review_limit: true,
            max_cost_perday: f32::MAX,
            ..Default::default()
        },
        &parameters,
        retention,
        Some(42),
        Some(cards),
    )
    .unwrap()
}

fn success_rate(analytics: &Analytics) -> Option<f32> {
    if analytics.total_reviews == 0 {
        None
    } else {
        Some(analytics.successful_reviews as f32 / analytics.total_reviews as f32)
    }
}

fn setup() -> (Library, String) {
    let mut lib = Library::new("UTC").unwrap();
    let deck = lib.create_deck("Test", 1000).unwrap();
    let csv = parse_csv(b"q,a\nQ1,A1\nQ2,A2\n", "utf-8").unwrap();
    lib.apply_import(
        lib.preview_import(
            &deck,
            &csv,
            Mapping {
                question: 0,
                answer: 1,
                explanation: None,
                id: None,
                choices: vec![],
                choice_separator: None,
            },
            1000,
        )
        .unwrap(),
    )
    .unwrap();
    (lib, deck)
}

#[test]
fn unlearned_cards_have_no_curve_and_limited_data_does_not_claim_personal_fit() {
    let (lib, deck) = setup();
    assert!(curve(&lib, &lib.state.cards[0].id, 1000).unwrap().is_empty());
    let analytics = lib.analytics(&deck).unwrap();
    assert!(!analytics.can_optimize);
    assert_eq!(forecast(&analytics, 1000).len(), 30);
    assert_eq!(success_rate(&analytics), None);
    assert!(lib.training_set(&deck).is_err());
}

#[test]
fn forgetting_curve_declines_and_parameter_changes_keep_existing_due_dates() {
    let (mut lib, deck) = setup();
    let id = lib.state.cards[0].id.clone();
    grade(&mut lib, &id, 3, 1000).unwrap();
    let points = curve(&lib, &id, 1000).unwrap();
    assert_eq!(points[0].1, 1.0);
    assert!(points.windows(2).all(|p| p[0].1 >= p[1].1));
    let due = lib.state.cards[0].schedule.due;
    let mut parameters: Vec<f32> = fsrs::DEFAULT_PARAMETERS.to_vec();
    parameters[0] += 0.01;
    let bits = parameters.iter().map(|p| p.to_bits()).collect();
    let revision = lib.state.revision;
    lib.apply_parameters(&deck, bits, revision).unwrap();
    assert_eq!(lib.state.cards[0].schedule.due, due);
    assert_eq!(success_rate(&lib.analytics(&deck).unwrap()), Some(1.0));
}

#[test]
fn training_uses_each_history_prefix_and_card_groups_without_exporting_content() {
    let (mut lib, deck) = setup();
    let id = lib.state.cards[0].id.clone();
    grade(&mut lib, &id, 1, 1000).unwrap();
    grade(&mut lib, &id, 3, 1061).unwrap();
    let due = lib.state.cards[0].schedule.due.unwrap();
    grade(&mut lib, &id, 3, due).unwrap();
    let (items, ids) = lib.training_items(&deck).unwrap();
    assert_eq!(items.len(), 1);
    assert_eq!(items[0].reviews.len(), 3);
    assert_eq!(items[0].reviews[2].delta_t, 1);
    assert_eq!(items[0].reviews[1].delta_t, 0);
    assert_eq!(ids, vec![0]);
}

#[test]
fn forecast_respects_card_limits_without_an_unrequested_time_budget() {
    let mut lib = Library::new("UTC").unwrap();
    let deck = lib.create_deck("Large synthetic deck", 1000).unwrap();
    let mut text = String::from("q,a\n");
    for i in 0..999 {
        text.push_str(&format!("Question {i},Answer {i}\n"));
    }
    let csv = parse_csv(text.as_bytes(), "utf-8").unwrap();
    lib.apply_import(
        lib.preview_import(
            &deck,
            &csv,
            Mapping {
                question: 0,
                answer: 1,
                explanation: None,
                id: None,
                choices: vec![],
                choice_separator: None,
            },
            1000,
        )
        .unwrap(),
    )
    .unwrap();
    lib.configure_deck(&deck, 0.9f32.to_bits(), 999, None).unwrap();
    let analytics = lib.analytics(&deck).unwrap();
    assert_eq!(forecast(&analytics, 1000)[0].new_cards, 999);
}

#[test]
fn analytics_counts_reviews_successes_and_learned_cards_of_the_deck_only() {
    let (mut lib, deck) = setup();
    let other = lib.create_deck("Other", 1000).unwrap();
    let first = lib.state.cards[0].id.clone();
    let second = lib.state.cards[1].id.clone();
    grade(&mut lib, &first, 1, 1000).unwrap();
    grade(&mut lib, &second, 3, 1000).unwrap();
    let a = lib.analytics(&deck).unwrap();
    assert_eq!(a.total_reviews, 2);
    assert_eq!(a.successful_reviews, 1);
    assert_eq!(a.learned_cards, 2);
    assert_eq!(a.optimization_samples, 0);
    let simulation = a.simulation.unwrap();
    assert_eq!(simulation.deck_size, 2);
    assert_eq!(simulation.learn_limit, 20);
    assert_eq!(simulation.review_limit, u32::MAX as usize);
    assert_eq!(simulation.cards.iter().map(|c| c.id).collect::<Vec<_>>(), vec![1, 2]);
    assert!(simulation.cards.iter().all(|c| c.memory.is_some()));
    let empty = lib.analytics(&other).unwrap();
    assert_eq!(empty.total_reviews, 0);
    assert!(empty.simulation.is_none());
    assert_eq!(
        lib.analytics("missing").unwrap_err().message(),
        "単語帳が見つかりません。"
    );
}

#[test]
fn empty_and_simulated_forecasts_cover_thirty_days() {
    let days = empty_forecast();
    assert_eq!(days.len(), 30);
    assert!(days.iter().enumerate().all(|(i, d)| d.day == i as u32
        && d.reviews == 0
        && d.new_cards == 0));
    let reviews: Vec<usize> = (0..31).collect();
    let learned: Vec<usize> = (100..131).collect();
    let days = forecast_days(&reviews, &learned);
    assert_eq!(days.len(), 30);
    assert_eq!((days[29].day, days[29].reviews, days[29].new_cards), (29, 29, 129));
}

#[test]
fn stale_or_invalid_parameters_are_refused_without_change() {
    let (mut lib, deck) = setup();
    let good: Vec<u32> = fsrs::DEFAULT_PARAMETERS.iter().map(|p| p.to_bits()).collect();
    let before = lib.state.clone();
    let revision = lib.state.revision;
    assert_eq!(
        lib.apply_parameters(&deck, good.clone(), revision + 1)
            .unwrap_err()
            .message(),
        "計算中にデータが変わりました。もう一度計算してください。"
    );
    let mut bad = good.clone();
    bad[3] = f32::NAN.to_bits();
    assert_eq!(
        lib.apply_parameters(&deck, bad, revision).unwrap_err().message(),
        "FSRSパラメータが不正です。"
    );
    assert_eq!(
        lib.apply_parameters(&deck, good[..20].to_vec(), revision)
            .unwrap_err()
            .message(),
        "FSRSパラメータが不正です。"
    );
    assert_eq!(
        lib.apply_parameters("missing", good.clone(), revision)
            .unwrap_err()
            .message(),
        "単語帳が見つかりません。"
    );
    assert_eq!(lib.state, before);
    lib.apply_parameters(&deck, good, revision).unwrap();
    assert_eq!(lib.state.revision, revision + 1);
    assert_eq!(lib.state.cards, before.cards);
}

#[test]
fn adopted_parameters_keep_the_library_valid() {
    let (mut lib, deck) = setup();
    let mut trained: Vec<u32> = fsrs::DEFAULT_PARAMETERS.iter().map(|p| p.to_bits()).collect();
    trained[0] = 0.5f32.to_bits();
    let revision = lib.state.revision;
    lib.apply_parameters(&deck, trained.clone(), revision).unwrap();
    let d = lib.state.decks.iter().find(|d| d.id == deck).unwrap();
    assert_eq!(d.parameters, trained);
    validate_snapshot(&lib.state).unwrap();
}

#[test]
fn a_same_day_bonus_leaves_the_forecast_input_and_statistics_alone() {
    let (mut lib, deck) = setup();
    let before = format!("{:?}", lib.analytics(&deck).unwrap());
    lib.add_bonus(&deck, 7, 3, 2000).unwrap();
    assert_eq!(lib.state.bonuses.len(), 1);
    let after = format!("{:?}", lib.analytics(&deck).unwrap());
    assert_eq!(before, after);
}

use autoeval_cna::domain::{
    NewProviderLink, ProviderQuestionReview, ProviderQuestionReviewStatus, Question, QuestionScope,
    QuestionStatus, ResetProviderQuestionReviewsRequest, SaveProviderQuestionReviewRequest,
};
use autoeval_cna::provider::{
    check_provider_link, normalize_instrument_audience, prepare_reset, prepare_review,
    provider_review_items, review_instruments, review_report, review_status_label,
    reviews_to_reset, status_color,
};

fn question(id: &str, code: &str, audiences: Vec<&str>) -> Question {
    Question {
        id: id.into(),
        code: code.into(),
        text: "La institucion comunica claramente los resultados de autoevaluacion.".into(),
        scope: QuestionScope::Institutional,
        format: "likert".into(),
        convention_code: Some("A".into()),
        status: QuestionStatus::Keep,
        factor: "Factor 1".into(),
        characteristic: "Caracteristica 1".into(),
        aspect: "Comunicacion de resultados".into(),
        audiences: audiences.into_iter().map(String::from).collect(),
        justification: None,
        updated_at: 0,
    }
}

fn review(id: &str, question_id: &str, instrument: &str, status: ProviderQuestionReviewStatus) -> ProviderQuestionReview {
    ProviderQuestionReview {
        id: id.into(),
        question_id: question_id.into(),
        instrument_audience: instrument.into(),
        status,
        observation: "No esta en el instrumento".into(),
        evidence_path: None,
        updated_at: 0,
    }
}

#[test]
fn provider_links_must_use_https() {
    let result = check_provider_link(&NewProviderLink {
        subaudience: "Pregrado".into(),
        url: "http://example.test".into(),
    });
    assert!(result.is_err());
    assert_eq!(result.unwrap_err(), "provider links must use an https URL");
    assert!(check_provider_link(&NewProviderLink {
        subaudience: "Pregrado".into(),
        url: "https://example.test".into(),
    })
    .is_ok());
}

#[test]
fn provider_review_items_are_split_by_instrument_audience() {
    let base_question = question("q-1", "EST-001", vec!["Estudiantes", "Profesores"]);
    let reviews = vec![review("review-1", "q-1", "Profesores", ProviderQuestionReviewStatus::Missing)];
    let items = provider_review_items(&vec![base_question], &reviews);

    assert_eq!(items.len(), 2);
    assert_eq!(items[0].instrument_audience, "Estudiantes");
    assert_eq!(items[0].instrument_label, "Estudiantes");
    assert!(items[0].review.is_none());
    assert_eq!(items[1].instrument_audience, "Profesores");
    assert_eq!(items[1].instrument_label, "Profesores");
    assert_eq!(
        items[1].review.as_ref().map(|review| &review.status),
        Some(&ProviderQuestionReviewStatus::Missing)
    );
}

#[test]
fn provider_review_groups_subpublics_under_exported_instrument() {
    let public_question = question("q-public", "PUB-1", vec!["Estudiantes"]);
    let subpublic_question = question(
        "q-subpublic",
        "SUB-1",
        vec!["Estudiantes Pregrado", "Estudiantes Maestrías virtuales"],
    );
    let items = provider_review_items(&vec![public_question, subpublic_question], &vec![]);
    let public_items = items
        .iter()
        .filter(|item| item.question.id == "q-public")
        .map(|item| (item.instrument_audience.as_str(), item.instrument_label.as_str()))
        .collect::<Vec<_>>();
    assert_eq!(public_items, vec![("Estudiantes", "Estudiantes")]);
    let subpublic_items = items
        .iter()
        .filter(|item| item.question.id == "q-subpublic")
        .map(|item| (item.instrument_audience.as_str(), item.instrument_label.as_str()))
        .collect::<Vec<_>>();
    assert_eq!(subpublic_items, vec![("Estudiantes", "Estudiantes")]);
}

#[test]
fn items_are_sorted_by_instrument_then_code_and_labelled() {
    let a = question("q-a", "EST-2", vec!["Profesores Planta Pregrado"]);
    let b = question("q-b", "EST-1", vec!["Profesores Planta", "Directivos"]);
    let c = question("q-c", "EST-3", vec![]);
    let items = provider_review_items(&vec![a, b, c], &vec![]);
    let seen = items
        .iter()
        .map(|item| (item.instrument_audience.as_str(), item.question.code.as_str(), item.instrument_label.as_str()))
        .collect::<Vec<_>>();
    assert_eq!(
        seen,
        vec![
            ("Directivos", "EST-1", "Directivos"),
            ("Profesores Planta", "EST-1", "Profesores de planta"),
            ("Profesores Planta", "EST-2", "Profesores de planta"),
            ("Sin instrumento", "EST-3", "Sin instrumento"),
        ]
    );
}

#[test]
fn legacy_reviews_are_found_under_their_instrument_key() {
    let q = question("q-1", "EST-001", vec!["Estudiantes Pregrado"]);
    let reviews = vec![review(
        "review-1",
        "q-1",
        "0Estudiantes 00Pregrado",
        ProviderQuestionReviewStatus::Correct,
    )];
    let items = provider_review_items(&vec![q], &reviews);
    assert_eq!(items.len(), 1);
    assert_eq!(items[0].instrument_audience, "Estudiantes");
    assert_eq!(
        items[0].review.as_ref().map(|r| r.id.as_str()),
        Some("review-1")
    );
}

#[test]
fn review_instruments_are_sorted_keys() {
    assert_eq!(review_instruments(&vec![]), vec!["Sin instrumento".to_string()]);
    assert_eq!(
        review_instruments(&vec![
            "Profesores Planta Pregrado".into(),
            "Estudiantes Pregrado".into(),
            "Estudiantes".into(),
        ]),
        vec!["Estudiantes".to_string(), "Profesores Planta".to_string()]
    );
}

#[test]
fn reset_provider_reviews_requires_explicit_confirmation() {
    let result = prepare_reset(&ResetProviderQuestionReviewsRequest {
        confirmation_text: "reiniciar".into(),
        instrument_audience: Some("Estudiantes Pregrado".into()),
    });
    assert!(result.is_err());
    assert_eq!(result.unwrap_err(), "confirmation text must be REINICIAR REVISION");
}

#[test]
fn reset_provider_reviews_returns_deleted_count() {
    let instrument = prepare_reset(&ResetProviderQuestionReviewsRequest {
        confirmation_text: "REINICIAR REVISION".into(),
        instrument_audience: Some("0Estudiantes 00Pregrado".into()),
    })
    .unwrap();
    assert_eq!(instrument.as_deref(), Some("Estudiantes"));
    let reviews = vec![
        review("r-1", "q-1", "Estudiantes", ProviderQuestionReviewStatus::Correct),
        review("r-2", "q-2", "Estudiantes Pregrado", ProviderQuestionReviewStatus::Missing),
        review("r-3", "q-3", "Directivos", ProviderQuestionReviewStatus::Missing),
    ];
    assert_eq!(
        reviews_to_reset(&reviews, instrument.as_deref()),
        vec!["r-1".to_string(), "r-2".to_string()]
    );
    assert_eq!(reviews_to_reset(&reviews, None).len(), 3);
    let all = prepare_reset(&ResetProviderQuestionReviewsRequest {
        confirmation_text: " REINICIAR REVISION ".into(),
        instrument_audience: Some("  ".into()),
    })
    .unwrap();
    assert_eq!(all, None);
}

#[test]
fn reviews_need_an_observation_unless_correct() {
    let request = |status: ProviderQuestionReviewStatus, observation: &str| SaveProviderQuestionReviewRequest {
        question_id: "q-1".into(),
        instrument_audience: "Estudiantes Pregrado".into(),
        status,
        observation: observation.into(),
        evidence_path: None,
    };
    assert_eq!(
        prepare_review(request(ProviderQuestionReviewStatus::Missing, "  ")).unwrap_err(),
        "observation is required when a question is not correct"
    );
    let saved = prepare_review(request(ProviderQuestionReviewStatus::Correct, "")).unwrap();
    assert_eq!(saved.instrument_audience, "Estudiantes");
    assert_eq!(saved.status, ProviderQuestionReviewStatus::Correct);
}

#[test]
fn audience_normalization_for_stored_reviews() {
    assert_eq!(normalize_instrument_audience(" 0Estudiantes  00Pregrado "), "Estudiantes 00Pregrado");
    assert_eq!(normalize_instrument_audience("1_Profesores_Planta"), "Profesores Planta");
}

#[test]
fn status_labels_and_colours() {
    assert_eq!(review_status_label(&ProviderQuestionReviewStatus::Correct), "OK");
    assert_eq!(review_status_label(&ProviderQuestionReviewStatus::Missing), "No aparece");
    assert_eq!(status_color("OK"), "047857");
    assert_eq!(status_color("Modificar"), "1D4ED8");
    assert_eq!(status_color("Pendiente"), "6B7280");
}

#[test]
fn report_counts_the_selected_instrument() {
    let q1 = question("q-1", "EST-1", vec!["Estudiantes"]);
    let q2 = question("q-2", "EST-2", vec!["Estudiantes", "Directivos"]);
    let mut with_evidence = review("r-1", "q-1", "Estudiantes", ProviderQuestionReviewStatus::NeedsModification);
    with_evidence.evidence_path = Some("/tmp/e.png".into());
    let items = provider_review_items(&vec![q1, q2], &vec![with_evidence]);
    let report = review_report(&items, Some("Estudiantes Pregrado")).unwrap();
    assert_eq!(report.instrument_label, "Estudiantes");
    assert_eq!(report.total, 2);
    assert_eq!(report.needs_modification, 1);
    assert_eq!(report.pending, 1);
    assert_eq!(report.entries[0].heading, "EST-1 · Modificar");
    assert_eq!(report.entries[0].evidence, "/tmp/e.png");
    assert_eq!(report.entries[1].observation, "Sin observacion");
    assert_eq!(report.entries[1].evidence, "Sin evidencia adjunta");
    let all = review_report(&items, None).unwrap();
    assert_eq!(all.instrument_label, "Todos los instrumentos");
    assert_eq!(all.total, 3);
    assert_eq!(
        review_report(&items, Some("Egresados")).unwrap_err(),
        "no provider review items were found for the selected instrument"
    );
}

#[test]
fn report_shows_the_instrument_display_label() {
    let q = question("q-9", "PROF-1", vec!["Profesores Planta Pregrado"]);
    let items = provider_review_items(&vec![q], &vec![]);
    let report = review_report(&items, Some("Profesores Planta")).unwrap();
    assert_eq!(report.instrument_label, "Profesores de planta");
    assert_eq!(report.total, 1);
}
